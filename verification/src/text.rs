//! Characters, bytes and numbers in text: the string primitives that the
//! frame, render and query modules are built from.

use vstd::prelude::*;
use vstd::utf8::{decode_utf8, encode_scalar, encode_utf8, encode_utf8_decode_utf8};

verus! {

/// `String::push` appends one character at the end of the string.
pub assume_specification[ String::push ](s: &mut String, c: char)
    ensures
        final(s)@ == old(s)@.push(c),
;

/// Number of bytes of the UTF-8 encoding of `c`.
pub open spec fn char_width(c: char) -> nat {
    if (c as u32) < 0x80 {
        1
    } else if (c as u32) < 0x800 {
        2
    } else if (c as u32) < 0x10000 {
        3
    } else {
        4
    }
}

/// Number of bytes of the UTF-8 encoding of `s`.
pub open spec fn utf8_len(s: Seq<char>) -> nat {
    encode_utf8(s).len()
}

pub proof fn lemma_utf8_concat(a: Seq<char>, b: Seq<char>)
    ensures
        encode_utf8(a + b) == encode_utf8(a) + encode_utf8(b),
        utf8_len(a + b) == utf8_len(a) + utf8_len(b),
    decreases a.len(),
{
    if a.len() == 0 {
        assert(a + b == b);
        assert(encode_utf8(a) == Seq::<u8>::empty());
    } else {
        let rest = a.drop_first();
        assert((a + b).drop_first() == rest + b);
        lemma_utf8_concat(rest, b);
        assert(encode_utf8(a + b) == encode_scalar(a[0] as u32) + encode_utf8(rest + b));
        assert(encode_utf8(a) == encode_scalar(a[0] as u32) + encode_utf8(rest));
        assert(encode_utf8(a + b) == encode_utf8(a) + encode_utf8(b));
    }
}

pub proof fn lemma_utf8_len_push(s: Seq<char>, c: char)
    ensures
        utf8_len(s.push(c)) == utf8_len(s) + char_width(c),
{
    let one = seq![c];
    assert(s.push(c) == s + one);
    lemma_utf8_concat(s, one);
    assert(one.drop_first() == Seq::<char>::empty());
    assert(encode_utf8(one.drop_first()) == Seq::<u8>::empty());
    assert(encode_utf8(one) == encode_scalar(c as u32) + encode_utf8(one.drop_first()));
}

/// ASCII text takes one byte for each character.
pub proof fn lemma_ascii_len(s: Seq<char>)
    requires
        forall|i: int| 0 <= i < s.len() ==> (#[trigger] s[i]) as u32 <= 127,
    ensures
        utf8_len(s) == s.len(),
    decreases s.len(),
{
    if s.len() > 0 {
        lemma_ascii_len(s.drop_last());
        assert(s.drop_last().push(s.last()) == s);
        lemma_utf8_len_push(s.drop_last(), s.last());
    }
}

/// A longer prefix takes no fewer bytes.
pub proof fn lemma_utf8_len_take(s: Seq<char>, i: int, j: int)
    requires
        0 <= i <= j <= s.len(),
    ensures
        utf8_len(s.take(i)) <= utf8_len(s.take(j)),
{
    assert(s.take(j) == s.take(i) + s.subrange(i, j));
    lemma_utf8_concat(s.take(i), s.subrange(i, j));
}

/// The characters of `s`, each replaced by its code.
pub open spec fn rewritten(s: Seq<char>, code: spec_fn(char) -> Seq<char>) -> Seq<char>
    decreases s.len(),
{
    if s.len() == 0 {
        seq![]
    } else {
        rewritten(s.drop_last(), code) + code(s.last())
    }
}

/// Whether no code is empty, and none is a prefix of another.
pub open spec fn is_prefix_code(code: spec_fn(char) -> Seq<char>) -> bool {
    &&& forall|c: char| (#[trigger] code(c)).len() > 0
    &&& forall|c: char, d: char|
        c != d ==> !(#[trigger] code(c)).is_prefix_of(#[trigger] code(d))
}

pub proof fn lemma_rewritten_concat(
    a: Seq<char>,
    b: Seq<char>,
    code: spec_fn(char) -> Seq<char>,
)
    ensures
        rewritten(a + b, code) == rewritten(a, code) + rewritten(b, code),
    decreases b.len(),
{
    if b.len() == 0 {
        assert(a + b == a);
    } else {
        assert((a + b).drop_last() == a + b.drop_last());
        lemma_rewritten_concat(a, b.drop_last(), code);
    }
}

pub proof fn lemma_rewritten_first(s: Seq<char>, code: spec_fn(char) -> Seq<char>)
    requires
        s.len() > 0,
    ensures
        rewritten(s, code) == code(s[0]) + rewritten(s.skip(1), code),
{
    let first = seq![s[0]];
    assert(s == first + s.skip(1));
    lemma_rewritten_concat(first, s.skip(1), code);
    assert(rewritten(first.drop_last(), code) == Seq::<char>::empty());
    assert(rewritten(first, code) == code(s[0]));
}

/// A text can be read back from its prefix code: two texts with the same
/// codes are the same.
pub proof fn lemma_rewritten_injective(
    a: Seq<char>,
    b: Seq<char>,
    code: spec_fn(char) -> Seq<char>,
)
    requires
        is_prefix_code(code),
        rewritten(a, code) == rewritten(b, code),
    ensures
        a == b,
    decreases a.len(),
{
    if a.len() == 0 || b.len() == 0 {
        if a.len() > 0 {
            lemma_rewritten_first(a, code);
            assert(code(a[0]).len() > 0);
            assert(rewritten(b, code).len() == 0);
        }
        if b.len() > 0 {
            lemma_rewritten_first(b, code);
            assert(code(b[0]).len() > 0);
            assert(rewritten(a, code).len() == 0);
        }
        assert(a == b);
    } else {
        lemma_rewritten_first(a, code);
        lemma_rewritten_first(b, code);
        let x = code(a[0]);
        let y = code(b[0]);
        let p = x + rewritten(a.skip(1), code);
        let q = y + rewritten(b.skip(1), code);
        assert(p == q);
        if a[0] != b[0] {
            assert(p.take(x.len() as int) == x);
            assert(q.take(y.len() as int) == y);
            if x.len() <= y.len() {
                assert(x == y.take(x.len() as int));
                assert(x.is_prefix_of(y));
            } else {
                assert(y == x.take(y.len() as int));
                assert(y.is_prefix_of(x));
            }
        }
        assert(rewritten(a.skip(1), code) == p.skip(x.len() as int));
        assert(rewritten(b.skip(1), code) == q.skip(x.len() as int));
        lemma_rewritten_injective(a.skip(1), b.skip(1), code);
        assert(a == seq![a[0]] + a.skip(1));
        assert(b == seq![b[0]] + b.skip(1));
    }
}

/// Number of bytes of `s`.
pub fn byte_len(s: &str) -> (n: usize)
    ensures
        n == utf8_len(s@),
{
    s.as_bytes().len()
}

/// Number of bytes that `c` takes in a string.
pub fn width_of(c: char) -> (n: usize)
    ensures
        n == char_width(c),
{
    let u: u32 = c as u32;
    if u < 0x80 {
        1
    } else if u < 0x800 {
        2
    } else if u < 0x10000 {
        3
    } else {
        4
    }
}

/// The characters of `s`, in order.
pub fn chars_of(s: &str) -> (v: Vec<char>)
    ensures
        v@ == s@,
{
    let mut v: Vec<char> = Vec::new();
    for c in it: s.chars()
        invariant
            it.seq() == s@,
            v@ == s@.take(it.index() as int),
    {
        v.push(c);
        assert(s@.take(it.index() as int).push(c) == s@.take(it.index() + 1));
    }
    assert(s@.take(s@.len() as int) == s@);
    v
}

/// The characters `v[from..to]` as a string.
pub fn string_of(v: &Vec<char>, from: usize, to: usize) -> (s: String)
    requires
        from <= to <= v@.len(),
    ensures
        s@ == v@.subrange(from as int, to as int),
{
    let mut s = String::new();
    let mut i: usize = from;
    while i < to
        invariant
            from <= i <= to <= v@.len(),
            s@ == v@.subrange(from as int, i as int),
        decreases to - i,
    {
        s.push(v[i]);
        assert(v@.subrange(from as int, i as int).push(v@[i as int]) == v@.subrange(
            from as int,
            i + 1,
        ));
        i += 1;
    }
    s
}

/// Whether `a` and `b` hold the same characters.
pub fn str_eq(a: &str, b: &str) -> (r: bool)
    ensures
        r == (a@ == b@),
{
    let x = a.as_bytes();
    let y = b.as_bytes();
    proof {
        encode_utf8_decode_utf8(a@);
        encode_utf8_decode_utf8(b@);
    }
    if x.len() != y.len() {
        return false;
    }
    let mut i: usize = 0;
    while i < x.len()
        invariant
            i <= x@.len(),
            x@.len() == y@.len(),
            x@ == encode_utf8(a@),
            y@ == encode_utf8(b@),
            forall|k: int| 0 <= k < i ==> x@[k] == y@[k],
        decreases x@.len() - i,
    {
        if x[i] != y[i] {
            return false;
        }
        i += 1;
    }
    assert(x@ == y@);
    assert(decode_utf8(x@) == a@);
    assert(decode_utf8(y@) == b@);
    true
}

/// Whether `t` occurs in `s` as a run of consecutive characters.
pub open spec fn has_infix(s: Seq<char>, t: Seq<char>) -> bool {
    exists|i: int| 0 <= i <= s.len() - t.len() && #[trigger] s.subrange(i, i + t.len()) == t
}

/// Whether `v[at..]` begins with `t`.
pub fn matches_at(v: &Vec<char>, at: usize, t: &Vec<char>) -> (r: bool)
    requires
        at <= v@.len(),
    ensures
        r == (at + t@.len() <= v@.len() && v@.subrange(at as int, at + t@.len()) == t@),
{
    if v.len() - at < t.len() {
        return false;
    }
    let mut k: usize = 0;
    while k < t.len()
        invariant
            k <= t@.len(),
            at + t.len() <= v.len(),
            forall|m: int| 0 <= m < k ==> v@[at + m] == t@[m],
        decreases t@.len() - k,
    {
        if v[at + k] != t[k] {
            assert(v@.subrange(at as int, at + t@.len())[k as int] == v@[at + k]);
            return false;
        }
        k += 1;
    }
    assert(v@.subrange(at as int, at + t@.len()) == t@);
    true
}

/// Whether `needle` occurs in `hay`.
pub fn contains(hay: &str, needle: &str) -> (r: bool)
    ensures
        r == has_infix(hay@, needle@),
{
    let v = chars_of(hay);
    let t = chars_of(needle);
    if v.len() < t.len() {
        return false;
    }
    let last: usize = v.len() - t.len();
    let mut i: usize = 0;
    while i <= last
        invariant
            v@ == hay@,
            t@ == needle@,
            last == v@.len() - t@.len(),
            i <= last + 1,
            last + 1 <= v@.len() + 1,
            forall|k: int| 0 <= k < i ==> #[trigger] v@.subrange(k, k + t@.len()) != t@,
        decreases last + 1 - i,
    {
        if matches_at(&v, i, &t) {
            assert(hay@.subrange(i as int, i + needle@.len()) == needle@);
            return true;
        }
        if i == last {
            return false;
        }
        i += 1;
    }
    false
}

/// What follows `prefix` in `s`, if `s` begins with it.
pub open spec fn after_prefix(s: Seq<char>, prefix: Seq<char>) -> Option<Seq<char>> {
    if prefix.is_prefix_of(s) {
        Some(s.skip(prefix.len() as int))
    } else {
        None
    }
}

/// What follows `prefix` in `s`, if `s` begins with it.
pub fn strip_prefix(s: &str, prefix: &str) -> (r: Option<String>)
    ensures
        r.deep_view() == after_prefix(s@, prefix@),
{
    let v = chars_of(s);
    let t = chars_of(prefix);
    if matches_at(&v, 0, &t) {
        assert(prefix@ == s@.subrange(0, prefix@.len() as int));
        let rest = string_of(&v, t.len(), v.len());
        assert(rest@ == s@.skip(prefix@.len() as int));
        Some(rest)
    } else {
        assert(prefix@.is_prefix_of(s@) ==> prefix@ == s@.subrange(0, prefix@.len() as int));
        None
    }
}

/// `s` without its leading run of the character `c`.
pub open spec fn without_leading(s: Seq<char>, c: char) -> Seq<char>
    decreases s.len(),
{
    if s.len() > 0 && s[0] == c {
        without_leading(s.skip(1), c)
    } else {
        s
    }
}

/// `s` without its leading run of the character `c`.
pub fn trim_leading(s: &str, c: char) -> (r: String)
    ensures
        r@ == without_leading(s@, c),
{
    let v = chars_of(s);
    let mut i: usize = 0;
    assert(s@.skip(0) == s@);
    while i < v.len() && v[i] == c
        invariant
            v@ == s@,
            i <= v@.len(),
            without_leading(s@, c) == without_leading(s@.skip(i as int), c),
        decreases v@.len() - i,
    {
        assert(s@.skip(i as int).skip(1) == s@.skip(i + 1));
        i += 1;
    }
    let r = string_of(&v, i, v.len());
    assert(r@ == s@.skip(i as int));
    r
}

/// The digit `d` (below ten) as a character.
pub open spec fn digit_char(d: nat) -> char {
    (48 + d) as char
}

/// `n` in decimal, without leading zeros.
pub open spec fn decimal(n: nat) -> Seq<char>
    decreases n,
{
    if n < 10 {
        seq![digit_char(n)]
    } else {
        decimal(n / 10).push(digit_char(n % 10))
    }
}

/// `n` in decimal, with a minus sign where it is negative.
pub open spec fn signed_decimal(n: int) -> Seq<char> {
    if n < 0 {
        seq!['-'] + decimal((-n) as nat)
    } else {
        decimal(n as nat)
    }
}

spec fn ten_to(k: nat) -> nat
    decreases k,
{
    if k == 0 {
        1
    } else {
        10 * ten_to((k - 1) as nat)
    }
}

proof fn lemma_decimal_is_short(n: nat, k: nat)
    requires
        n < ten_to(k),
        k > 0,
    ensures
        decimal(n).len() <= k,
        forall|i: int| 0 <= i < decimal(n).len() ==> (#[trigger] decimal(n)[i]) as u32 <= 127,
    decreases k,
{
    reveal_with_fuel(ten_to, 2);
    if n >= 10 {
        lemma_decimal_is_short(n / 10, (k - 1) as nat);
    }
}

/// A 64-bit number takes at most twenty bytes in decimal.
pub proof fn lemma_decimal_len(n: u64)
    ensures
        utf8_len(decimal(n as nat)) <= 20,
{
    assert(ten_to(20) == 100_000_000_000_000_000_000nat) by {
        reveal_with_fuel(ten_to, 21);
    }
    lemma_decimal_is_short(n as nat, 20);
    lemma_ascii_len(decimal(n as nat));
}

fn push_decimal(out: &mut String, n: u64)
    ensures
        final(out)@ == old(out)@ + decimal(n as nat),
    decreases n,
{
    if n >= 10 {
        push_decimal(out, n / 10);
    }
    let d: u8 = 48 + (n % 10) as u8;
    out.push(d as char);
    assert(old(out)@ + decimal(n as nat) == out@);
}

/// `n` in decimal.
pub fn decimal_u64(n: u64) -> (s: String)
    ensures
        s@ == decimal(n as nat),
{
    let mut s = String::new();
    push_decimal(&mut s, n);
    assert(s@ == decimal(n as nat));
    s
}

/// `n` in decimal, with its sign.
pub fn decimal_i64(n: i64) -> (s: String)
    ensures
        s@ == signed_decimal(n as int),
{
    let mut s = String::new();
    if n < 0 {
        s.push('-');
        let magnitude: u64 = (-(n + 1)) as u64 + 1;
        push_decimal(&mut s, magnitude);
    } else {
        push_decimal(&mut s, n as u64);
    }
    assert(s@ == signed_decimal(n as int));
    s
}

/// The hexadecimal digit `d` (below sixteen), in lower case.
pub open spec fn hex_char(d: nat) -> char {
    if d < 10 {
        (48 + d) as char
    } else {
        (87 + d) as char
    }
}

/// The low `k` hexadecimal digits of `n`, most significant first.
pub open spec fn hex_digits(n: nat, k: nat) -> Seq<char>
    decreases k,
{
    if k == 0 {
        seq![]
    } else {
        hex_digits(n / 16, (k - 1) as nat).push(hex_char(n % 16))
    }
}

/// Appends the low `k` hexadecimal digits of `n`.
pub fn push_hex(out: &mut String, n: u64, k: usize)
    ensures
        final(out)@ == old(out)@ + hex_digits(n as nat, k as nat),
    decreases k,
{
    if k > 0 {
        push_hex(out, n / 16, k - 1);
        let d: u8 = (n % 16) as u8;
        let c: u8 = if d < 10 {
            48 + d
        } else {
            87 + d
        };
        out.push(c as char);
    }
    assert(old(out)@ + hex_digits(n as nat, k as nat) == out@);
}

/// Whether `c` is one of the ten ASCII digits.
pub open spec fn is_digit(c: char) -> bool {
    '0' <= c && c <= '9'
}

/// The number that a run of ASCII digits denotes.
pub open spec fn digits_value(s: Seq<char>) -> nat
    decreases s.len(),
{
    if s.len() == 0 {
        0
    } else {
        digits_value(s.drop_last()) * 10 + (s.last() as nat - 48) as nat
    }
}

/// `s` without one leading sign.
pub open spec fn unsigned_part(s: Seq<char>) -> Seq<char> {
    if s.len() > 0 && (s[0] == '+' || s[0] == '-') {
        s.skip(1)
    } else {
        s
    }
}

/// Whether `s` is made of ASCII digits alone.
pub open spec fn all_digits(s: Seq<char>) -> bool {
    forall|i: int| 0 <= i < s.len() ==> is_digit(#[trigger] s[i])
}

/// Whether `s` is an optional sign and one or more ASCII digits that denote a
/// number in the range of `i64`.
pub open spec fn is_i64_text(s: Seq<char>) -> bool {
    let digits = unsigned_part(s);
    &&& digits.len() > 0
    &&& all_digits(digits)
    &&& if s[0] == '-' {
        digits_value(digits) <= 0x8000_0000_0000_0000
    } else {
        digits_value(digits) < 0x8000_0000_0000_0000
    }
}

/// Whether `s` reads as an `i64`.
pub fn reads_as_i64(s: &str) -> (r: bool)
    ensures
        r == is_i64_text(s@),
{
    let v = chars_of(s);
    if v.len() == 0 {
        return false;
    }
    let negative = v[0] == '-';
    let start: usize = if negative || v[0] == '+' {
        1
    } else {
        0
    };
    let limit: u64 = if negative {
        0x8000_0000_0000_0000
    } else {
        0x7fff_ffff_ffff_ffff
    };
    let ghost digits = unsigned_part(s@);
    assert(s@.skip(0) == s@);
    if v.len() == start {
        return false;
    }
    let mut value: u64 = 0;
    let mut fits = true;
    let mut i: usize = start;
    while i < v.len()
        invariant
            v@ == s@,
            start <= i <= v@.len(),
            digits == unsigned_part(s@),
            digits == s@.skip(start as int),
            0x7fff_ffff_ffff_ffff <= limit <= 0x8000_0000_0000_0000,
            forall|k: int| 0 <= k < i - start ==> is_digit(#[trigger] digits[k]),
            fits ==> value == digits_value(digits.take(i - start)) && value <= limit,
            !fits ==> digits_value(digits.take(i - start)) > limit,
        decreases v@.len() - i,
    {
        let c = v[i];
        assert(digits[i - start] == c);
        if !('0' <= c && c <= '9') {
            assert(!is_digit(digits[i - start]));
            return false;
        }
        assert(digits.take(i + 1 - start).drop_last() == digits.take(i - start));
        if fits {
            let d: u64 = c as u64 - 48;
            if value > (limit - d) / 10 {
                fits = false;
            } else {
                value = value * 10 + d;
            }
        }
        i += 1;
    }
    assert(digits.take(digits.len() as int) == digits);
    fits
}

/// A hexadecimal number has as many characters as it has digits.
pub proof fn lemma_hex_len(n: nat, k: nat)
    ensures
        hex_digits(n, k).len() == k,
    decreases k,
{
    if k > 0 {
        lemma_hex_len(n / 16, (k - 1) as nat);
    }
}

/// How many hexadecimal numbers of `k` digits there are.
pub open spec fn sixteen_to(k: nat) -> nat
    decreases k,
{
    if k == 0 {
        1
    } else {
        16 * sixteen_to((k - 1) as nat)
    }
}

/// Whether `a` comes before `b` in the order of strings: by their first
/// difference, and a prefix before what it begins.
pub open spec fn comes_before(a: Seq<char>, b: Seq<char>) -> bool
    decreases a.len(),
{
    if b.len() == 0 {
        false
    } else if a.len() == 0 {
        true
    } else if a[0] != b[0] {
        (a[0] as u32) < (b[0] as u32)
    } else {
        comes_before(a.skip(1), b.skip(1))
    }
}

/// Whether `a` comes before `b` in the order of strings.
pub fn is_before(a: &str, b: &str) -> (r: bool)
    ensures
        r == comes_before(a@, b@),
{
    let x = chars_of(a);
    let y = chars_of(b);
    let mut i: usize = 0;
    assert(a@.skip(0) == a@);
    assert(b@.skip(0) == b@);
    while i < x.len() && i < y.len()
        invariant
            x@ == a@,
            y@ == b@,
            i <= x@.len(),
            i <= y@.len(),
            comes_before(a@, b@) == comes_before(a@.skip(i as int), b@.skip(i as int)),
        decreases x@.len() - i,
    {
        assert(a@.skip(i as int).skip(1) == a@.skip(i + 1));
        assert(b@.skip(i as int).skip(1) == b@.skip(i + 1));
        if x[i] != y[i] {
            return (x[i] as u32) < (y[i] as u32);
        }
        i += 1;
    }
    i < y.len()
}

proof fn lemma_codes_differ(c: char, d: char)
    requires
        c != d,
    ensures
        c as u32 != d as u32,
{
}

pub proof fn lemma_order_is_total(a: Seq<char>, b: Seq<char>)
    ensures
        comes_before(a, b) || comes_before(b, a) || a == b,
    decreases a.len(),
{
    if a.len() > 0 && b.len() > 0 && a[0] == b[0] {
        lemma_order_is_total(a.skip(1), b.skip(1));
        if a.skip(1) == b.skip(1) {
            assert(a == seq![a[0]] + a.skip(1));
            assert(b == seq![b[0]] + b.skip(1));
        }
    } else if a.len() > 0 && b.len() > 0 {
        lemma_codes_differ(a[0], b[0]);
    } else if a.len() == 0 && b.len() == 0 {
        assert(a == b);
    }
}

pub proof fn lemma_order_is_transitive(a: Seq<char>, b: Seq<char>, c: Seq<char>)
    requires
        comes_before(a, b),
        comes_before(b, c),
    ensures
        comes_before(a, c),
    decreases a.len(),
{
    if a.len() > 0 && a[0] == b[0] && b[0] == c[0] {
        lemma_order_is_transitive(a.skip(1), b.skip(1), c.skip(1));
    }
}

pub proof fn lemma_not_before_itself(a: Seq<char>)
    ensures
        !comes_before(a, a),
    decreases a.len(),
{
    if a.len() > 0 {
        lemma_not_before_itself(a.skip(1));
    }
}

/// Equal strings before two strings do not change their order.
pub proof fn lemma_order_after_common(common: Seq<char>, a: Seq<char>, b: Seq<char>)
    ensures
        comes_before(common + a, common + b) == comes_before(a, b),
    decreases common.len(),
{
    let x = common + a;
    let y = common + b;
    if common.len() == 0 {
        assert(x == a);
        assert(y == b);
    } else {
        assert(x[0] == y[0]);
        assert(x.skip(1) == common.skip(1) + a);
        assert(y.skip(1) == common.skip(1) + b);
        lemma_order_after_common(common.skip(1), a, b);
    }
}

/// What follows two strings of one length does not change their order.
pub proof fn lemma_order_before_any(a: Seq<char>, b: Seq<char>, c: char, d: char)
    requires
        a.len() == b.len(),
        comes_before(a, b),
    ensures
        comes_before(a.push(c), b.push(d)),
    decreases a.len(),
{
    let x = a.push(c);
    let y = b.push(d);
    assert(x[0] == a[0]);
    assert(y[0] == b[0]);
    if a[0] == b[0] {
        assert(x.skip(1) == a.skip(1).push(c));
        assert(y.skip(1) == b.skip(1).push(d));
        lemma_order_before_any(a.skip(1), b.skip(1), c, d);
    }
}

/// Hexadecimal numbers of one length are in the order of the numbers.
pub proof fn lemma_hex_in_order(m: nat, n: nat, k: nat)
    requires
        m < n,
        n < sixteen_to(k),
    ensures
        hex_digits(m, k).len() == k,
        hex_digits(n, k).len() == k,
        comes_before(hex_digits(m, k), hex_digits(n, k)),
    decreases k,
{
    let j = (k - 1) as nat;
    let x = hex_digits(m / 16, j);
    let y = hex_digits(n / 16, j);
    let c = hex_char(m % 16);
    let d = hex_char(n % 16);
    lemma_hex_len(m, k);
    lemma_hex_len(n, k);
    lemma_hex_len(m / 16, j);
    lemma_hex_len(n / 16, j);
    if m / 16 < n / 16 {
        lemma_hex_in_order(m / 16, n / 16, j);
        lemma_order_before_any(x, y, c, d);
    } else {
        assert(x == y);
        assert((c as u32) < (d as u32));
        assert(x.push(c) == x + seq![c]);
        assert(x.push(d) == x + seq![d]);
        lemma_order_after_common(x, seq![c], seq![d]);
    }
}

/// A number in decimal is its digits: one more digit at the end multiplies by
/// ten and adds that digit, there are no leading zeros, and a sign stands before
/// a negative number and no other.
pub proof fn law_decimal_by_digits(n: nat, d: nat)
    requires
        d < 10,
    ensures
        decimal(d) == seq!["0123456789"@[d as int]],
        n > 0 ==> decimal(10 * n + d) == decimal(n) + seq!["0123456789"@[d as int]],
        signed_decimal(n as int) == decimal(n),
        n > 0 ==> signed_decimal(-(n as int)) == seq!['-'] + decimal(n),
{
    reveal_strlit("0123456789");
    assert("0123456789"@[d as int] == digit_char(d));
    if n > 0 {
        assert((10 * n + d) / 10 == n);
        assert((10 * n + d) % 10 == d);
        assert(decimal(10 * n + d) == decimal(n).push(digit_char(d)));
    }
}

proof fn lemma_decimal_reads_back(n: nat)
    ensures
        digits_value(decimal(n)) == n,
        all_digits(decimal(n)),
        decimal(n).len() > 0,
    decreases n,
{
    let front = decimal(n / 10);
    let last = digit_char(n % 10);
    if n >= 10 {
        lemma_decimal_reads_back(n / 10);
        assert(decimal(n).drop_last() == front);
        assert forall|i: int| 0 <= i < decimal(n).len() implies is_digit(
            #[trigger] decimal(n)[i],
        ) by {
            if i < front.len() {
                assert(decimal(n)[i] == front[i]);
            } else {
                assert(decimal(n)[i] == last);
            }
        }
    } else {
        assert(decimal(n).drop_last() == Seq::<char>::empty());
        assert(digits_value(Seq::<char>::empty()) == 0);
    }
}

/// Different integers have different decimal texts.
pub proof fn law_decimals_differ(a: int, b: int)
    requires
        signed_decimal(a) == signed_decimal(b),
    ensures
        a == b,
{
    let m: int = if a < 0 {
        -a
    } else {
        a
    };
    let n: int = if b < 0 {
        -b
    } else {
        b
    };
    let x = decimal(m as nat);
    let y = decimal(n as nat);
    lemma_decimal_reads_back(m as nat);
    lemma_decimal_reads_back(n as nat);
    let s = signed_decimal(a);
    assert(is_digit(x[0]));
    assert(is_digit(y[0]));
    if a < 0 {
        assert(s[0] == '-');
        assert(s.skip(1) == x);
    }
    if b < 0 {
        assert(s[0] == '-');
        assert(s.skip(1) == y);
    }
}

/// A text reads as an integer where it is the decimal text of one in range, with
/// or without a plus sign and leading zeros before it; a text that is empty, or
/// that holds a character that is no digit behind its sign, does not.
pub proof fn law_integers_read_back(n: i64, s: Seq<char>, k: int)
    ensures
        is_i64_text(signed_decimal(n as int)),
        n >= 0 ==> is_i64_text(seq!['+'] + decimal(n as nat)),
        n >= 0 ==> is_i64_text(seq!['0'] + decimal(n as nat)),
        !is_i64_text(signed_decimal(i64::MAX + 1)),
        !is_i64_text(signed_decimal(i64::MIN - 1)),
        !is_i64_text(seq![]),
        0 <= k < s.len() && !('0' <= s[k] && s[k] <= '9') && (k > 0 || (s[0] != '+' && s[0]
            != '-') || s.len() == 1) ==> !is_i64_text(s),
{
    let m = if n < 0 {
        (-(n as int)) as nat
    } else {
        n as nat
    };
    lemma_decimal_reads_back(m);
    lemma_decimal_reads_back((i64::MAX + 1) as nat);
    lemma_decimal_reads_back((-(i64::MIN - 1)) as nat);
    let digits = decimal(m);
    assert(is_digit(digits[0]));
    assert((seq!['-'] + digits).skip(1) == digits);
    assert((seq!['+'] + digits).skip(1) == digits);
    lemma_leading_zero(digits);
    let big = decimal((i64::MAX + 1) as nat);
    assert(is_digit(big[0]));
    let small = decimal((-(i64::MIN - 1)) as nat);
    assert((seq!['-'] + small).skip(1) == small);
    if 0 <= k < s.len() && !is_digit(s[k]) {
        if k > 0 {
            assert(s.skip(1)[k - 1] == s[k]);
        }
    }
}

proof fn lemma_leading_zero(digits: Seq<char>)
    requires
        all_digits(digits),
    ensures
        all_digits(seq!['0'] + digits),
        digits_value(seq!['0'] + digits) == digits_value(digits),
    decreases digits.len(),
{
    let s = seq!['0'] + digits;
    assert forall|i: int| 0 <= i < s.len() implies is_digit(#[trigger] s[i]) by {
        if i > 0 {
            assert(s[i] == digits[i - 1]);
        }
    }
    if digits.len() == 0 {
        assert(s.drop_last() == digits);
    } else {
        let front = digits.drop_last();
        assert forall|i: int| 0 <= i < front.len() implies is_digit(#[trigger] front[i]) by {
            assert(front[i] == digits[i]);
        }
        lemma_leading_zero(front);
        assert(s.drop_last() == seq!['0'] + front);
    }
}

/// What a run of digits denotes: one more digit at the end multiplies by ten and
/// adds that digit.
pub proof fn law_value_of_digits(s: Seq<char>, d: nat)
    requires
        d < 10,
    ensures
        digits_value(seq![]) == 0,
        digits_value(s.push("0123456789"@[d as int])) == 10 * digits_value(s) + d,
{
    reveal_strlit("0123456789");
    let c = "0123456789"@[d as int];
    assert(s.push(c).drop_last() == s);
}

/// A number in hexadecimal is its digits, in lower case.
pub proof fn law_hex_by_digits(n: nat, d: nat, k: nat)
    requires
        d < 16,
    ensures
        hex_digits(n, 0) == Seq::<char>::empty(),
        hex_digits(16 * n + d, k + 1) == hex_digits(n, k) + seq!["0123456789abcdef"@[d as int]],
{
    reveal_strlit("0123456789abcdef");
    assert("0123456789abcdef"@[d as int] == hex_char(d));
    assert((16 * n + d) / 16 == n);
    assert((16 * n + d) % 16 == d);
    assert(hex_digits(16 * n + d, k + 1) == hex_digits(n, k).push(hex_char(d)));
}

/// Strings are ordered by their first difference, and a string comes before what
/// it begins.
pub proof fn law_order_by_first_difference(common: Seq<char>, a: Seq<char>, b: Seq<char>)
    ensures
        a.len() > 0 && b.len() > 0 && a[0] != b[0] ==> (comes_before(common + a, common + b)
            <==> (a[0] as u32) < (b[0] as u32)),
        b.len() > 0 ==> comes_before(common, common + b),
        !comes_before(common + a, common),
{
    lemma_order_after_common(common, a, b);
    lemma_order_after_common(common, seq![], b);
    lemma_order_after_common(common, a, seq![]);
    assert(common + Seq::<char>::empty() == common);
}

/// Leading characters are taken off, all of them and nothing else.
pub proof fn law_leading_characters_go(c: char, n: nat, s: Seq<char>)
    requires
        s.len() > 0 ==> s[0] != c,
    ensures
        without_leading(Seq::new(n, |i: int| c) + s, c) == s,
    decreases n,
{
    let all = Seq::new(n, |i: int| c) + s;
    if n == 0 {
        assert(all == s);
    } else {
        assert(all.skip(1) == Seq::new((n - 1) as nat, |i: int| c) + s);
        law_leading_characters_go(c, (n - 1) as nat, s);
    }
}

/// What stands behind a prefix is what was put there; a text that does not begin
/// with the prefix has nothing behind it.
pub proof fn law_prefix_comes_off(prefix: Seq<char>, s: Seq<char>, other: Seq<char>)
    requires
        other.len() < prefix.len() || other.take(prefix.len() as int) != prefix,
    ensures
        after_prefix(prefix + s, prefix) == Some(s),
        after_prefix(other, prefix) is None,
{
    assert((prefix + s).skip(prefix.len() as int) == s);
    if prefix.is_prefix_of(other) {
        assert(other.take(prefix.len() as int) == prefix);
    }
}

/// A text holds another where that stands somewhere in it, and only there.
pub proof fn law_infix_is_somewhere(a: Seq<char>, t: Seq<char>, b: Seq<char>, s: Seq<char>)
    ensures
        has_infix(a + t + b, t),
        has_infix(s, t) ==> exists|x: Seq<char>, y: Seq<char>| s == #[trigger] (x + t + y),
{
    let all = a + t + b;
    assert(all.subrange(a.len() as int, (a.len() + t.len()) as int) == t);
    if has_infix(s, t) {
        let i = choose|i: int|
            0 <= i <= s.len() - t.len() && #[trigger] s.subrange(i, i + t.len()) == t;
        assert(s == s.take(i) + t + s.skip(i + t.len() as int));
    }
}

/// A run of digits reads as an integer where the number that it denotes is in
/// range, with the sign that stands before it.
pub proof fn law_range_of_integers(digits: Seq<char>)
    requires
        digits.len() > 0,
        forall|i: int| 0 <= i < digits.len() ==> '0' <= #[trigger] digits[i] && digits[i] <= '9',
    ensures
        is_i64_text(digits) <==> digits_value(digits) <= i64::MAX,
        is_i64_text(seq!['+'] + digits) <==> digits_value(digits) <= i64::MAX,
        is_i64_text(seq!['-'] + digits) <==> digits_value(digits) <= -(i64::MIN as int),
{
    assert(is_digit(digits[0]));
    assert(all_digits(digits));
    assert((seq!['+'] + digits).skip(1) == digits);
    assert((seq!['-'] + digits).skip(1) == digits);
}

} // verus!
