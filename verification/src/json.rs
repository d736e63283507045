//! JSON values and their compact text.

use vstd::prelude::*;
use crate::text::{
    chars_of, decimal, decimal_i64, decimal_u64, hex_char, hex_digits, is_digit, lemma_ascii_len,
    lemma_rewritten_concat, lemma_rewritten_injective, lemma_utf8_concat, lemma_utf8_len_push,
    rewritten, signed_decimal, utf8_len,
};

verus! {

/// A JSON value. The members of an object stand in the order in which they
/// are written.
pub enum Json {
    Null,
    Bool(bool),
    Int(i64),
    UInt(u64),
    Number(Number),
    Str(String),
    Array(Vec<Json>),
    Object(Vec<Member>),
}

/// One member of a JSON object.
pub struct Member {
    pub key: String,
    pub value: Json,
}

/// The text of a JSON number that is no 64-bit integer.
pub struct Number {
    text: String,
}

/// The mathematical value of a [`Json`].
pub enum JsonView {
    Null,
    Bool(bool),
    Int(int),
    Number(Seq<char>),
    Str(Seq<char>),
    Array(Seq<JsonView>),
    Object(Seq<(Seq<char>, JsonView)>),
}

/// The mathematical value of `j`.
pub open spec fn json_view(j: Json) -> JsonView
    decreases j,
{
    match j {
        Json::Null => JsonView::Null,
        Json::Bool(b) => JsonView::Bool(b),
        Json::Int(n) => JsonView::Int(n as int),
        Json::UInt(n) => JsonView::Int(n as int),
        Json::Number(n) => JsonView::Number(n@),
        Json::Str(s) => JsonView::Str(s@),
        Json::Array(v) => JsonView::Array(
            Seq::new(
                v@.len(),
                |i: int|
                    if 0 <= i < v@.len() {
                        json_view(v@[i])
                    } else {
                        JsonView::Null
                    },
            ),
        ),
        Json::Object(v) => JsonView::Object(
            Seq::new(
                v@.len(),
                |i: int|
                    if 0 <= i < v@.len() {
                        (v@[i].key@, json_view(v@[i].value))
                    } else {
                        (seq![], JsonView::Null)
                    },
            ),
        ),
    }
}

impl View for Json {
    type V = JsonView;

    open spec fn view(&self) -> JsonView {
        json_view(*self)
    }
}

impl View for Number {
    type V = Seq<char>;

    closed spec fn view(&self) -> Seq<char> {
        self.text@
    }
}

impl View for Member {
    type V = (Seq<char>, JsonView);

    open spec fn view(&self) -> (Seq<char>, JsonView) {
        (self.key@, self.value@)
    }
}

/// The mathematical values of `v`, in order.
pub open spec fn member_views(v: Seq<Member>) -> Seq<(Seq<char>, JsonView)> {
    v.map_values(|m: Member| m@)
}

/// The mathematical values of `v`, in order.
pub open spec fn element_views(v: Seq<Json>) -> Seq<JsonView> {
    v.map_values(|j: Json| j@)
}

/// How many ASCII digits `s` begins with.
pub open spec fn digit_run(s: Seq<char>) -> nat
    decreases s.len(),
{
    if s.len() > 0 && is_digit(s[0]) {
        1 + digit_run(s.skip(1))
    } else {
        0
    }
}

/// Whether `s` is empty or the exponent of a JSON number.
pub open spec fn is_exponent(s: Seq<char>) -> bool {
    s.len() == 0 || (s[0] == 'e' || s[0] == 'E') && {
        let digits = if s.len() > 1 && (s[1] == '+' || s[1] == '-') {
            s.skip(2)
        } else {
            s.skip(1)
        };
        digits.len() > 0 && digit_run(digits) == digits.len()
    }
}

/// Whether `s` is what may follow the integer part of a JSON number.
pub open spec fn is_fraction(s: Seq<char>) -> bool {
    if s.len() > 0 && s[0] == '.' {
        digit_run(s.skip(1)) > 0 && is_exponent(s.skip(1 + digit_run(s.skip(1)) as int))
    } else {
        is_exponent(s)
    }
}

/// Whether `s` is a number by the JSON grammar.
pub open spec fn is_number_text(s: Seq<char>) -> bool {
    let unsigned = if s.len() > 0 && s[0] == '-' {
        s.skip(1)
    } else {
        s
    };
    let n = digit_run(unsigned);
    n > 0 && (unsigned[0] == '0' ==> n == 1) && is_fraction(unsigned.skip(n as int))
}

/// The index behind the digits that begin at `from`.
fn skip_digits(v: &Vec<char>, from: usize) -> (end: usize)
    requires
        from <= v@.len(),
    ensures
        from <= end <= v@.len(),
        end == from + digit_run(v@.skip(from as int)),
{
    let mut i: usize = from;
    while i < v.len() && '0' <= v[i] && v[i] <= '9'
        invariant
            from <= i <= v@.len(),
            i + digit_run(v@.skip(i as int)) == from + digit_run(v@.skip(from as int)),
        decreases v@.len() - i,
    {
        assert(v@.skip(i as int).skip(1) == v@.skip(i + 1));
        assert(v@.skip(i as int)[0] == v@[i as int]);
        i += 1;
    }
    assert(i < v@.len() ==> v@.skip(i as int)[0] == v@[i as int]);
    i
}

/// Whether `v[at..]` is empty or the exponent of a JSON number.
fn at_exponent(v: &Vec<char>, at: usize) -> (r: bool)
    requires
        at <= v@.len(),
    ensures
        r == is_exponent(v@.skip(at as int)),
{
    let ghost tail = v@.skip(at as int);
    if at == v.len() {
        return true;
    }
    if v[at] != 'e' && v[at] != 'E' {
        return false;
    }
    let mut from: usize = at + 1;
    if from < v.len() && (v[from] == '+' || v[from] == '-') {
        from += 1;
    }
    assert(tail.skip(from - at) == v@.skip(from as int));
    from < v.len() && skip_digits(v, from) == v.len()
}

/// Whether `v[at..]` is what may follow the integer part of a JSON number.
fn at_fraction(v: &Vec<char>, at: usize) -> (r: bool)
    requires
        at <= v@.len(),
    ensures
        r == is_fraction(v@.skip(at as int)),
{
    let ghost tail = v@.skip(at as int);
    if at < v.len() && v[at] == '.' {
        assert(tail.skip(1) == v@.skip(at + 1));
        let stop = skip_digits(v, at + 1);
        assert(tail.skip(stop - at) == v@.skip(stop as int));
        stop > at + 1 && at_exponent(v, stop)
    } else {
        at_exponent(v, at)
    }
}

impl Number {
    #[verifier::type_invariant]
    spec fn well_formed(self) -> bool {
        is_number_text(self.text@)
    }

    /// A copy of this number.
    pub fn duplicate(&self) -> (n: Number)
        ensures
            n@ == self@,
    {
        proof {
            use_type_invariant(self);
        }
        Number { text: self.text.clone() }
    }

    /// The number that `text` denotes, if it is one by the JSON grammar.
    pub fn parse(text: &str) -> (r: Option<Number>)
        ensures
            r is Some <==> is_number_text(text@),
            r matches Some(n) ==> n@ == text@,
    {
        let v = chars_of(text);
        let start: usize = if v.len() > 0 && v[0] == '-' {
            1
        } else {
            0
        };
        let ghost unsigned = v@.skip(start as int);
        assert(v@.skip(0) == v@);
        let end = skip_digits(&v, start);
        if end == start || (v[start] == '0' && end > start + 1) {
            return None;
        }
        assert(unsigned.skip(end - start) == v@.skip(end as int));
        if at_fraction(&v, end) {
            Some(Number { text: text.to_owned() })
        } else {
            None
        }
    }
}

/// How one character stands inside a JSON string.
pub open spec fn escaped_char(c: char) -> Seq<char> {
    if c == '"' {
        seq!['\\', '"']
    } else if c == '\\' {
        seq!['\\', '\\']
    } else if c as u32 == 8 {
        seq!['\\', 'b']
    } else if c == '\t' {
        seq!['\\', 't']
    } else if c == '\n' {
        seq!['\\', 'n']
    } else if c as u32 == 12 {
        seq!['\\', 'f']
    } else if c == '\r' {
        seq!['\\', 'r']
    } else if (c as u32) < 32 {
        let code = (c as u32) as nat;
        seq!['\\', 'u', '0', '0', hex_char(code / 16), hex_char(code % 16)]
    } else {
        seq![c]
    }
}

/// The characters of `s`, each as it stands inside a JSON string.
pub open spec fn escaped(s: Seq<char>) -> Seq<char> {
    rewritten(s, |c: char| escaped_char(c))
}

/// `s` as a JSON string, quotes included.
pub open spec fn quoted(s: Seq<char>) -> Seq<char> {
    seq!['"'] + escaped(s) + seq!['"']
}

/// The compact text of `j`: no white space between tokens.
pub open spec fn json_text(j: JsonView) -> Seq<char>
    decreases j,
{
    match j {
        JsonView::Null => "null"@,
        JsonView::Bool(b) => if b {
            "true"@
        } else {
            "false"@
        },
        JsonView::Int(n) => signed_decimal(n),
        JsonView::Number(t) => t,
        JsonView::Str(s) => quoted(s),
        JsonView::Array(v) => seq!['['] + elements_text(v) + seq![']'],
        JsonView::Object(v) => seq!['{'] + members_text(v) + seq!['}'],
    }
}

/// The elements of an array, separated by commas.
pub open spec fn elements_text(v: Seq<JsonView>) -> Seq<char>
    decreases v,
{
    if v.len() == 0 {
        seq![]
    } else {
        let before = elements_text(v.drop_last());
        before + separator(v.len()) + json_text(v.last())
    }
}

/// The members of an object, separated by commas.
pub open spec fn members_text(v: Seq<(Seq<char>, JsonView)>) -> Seq<char>
    decreases v,
{
    if v.len() == 0 {
        seq![]
    } else {
        let before = members_text(v.drop_last());
        before + separator(v.len()) + quoted(v.last().0) + seq![':'] + json_text(v.last().1)
    }
}

/// What stands before the last of `n` items.
pub open spec fn separator(n: nat) -> Seq<char> {
    if n > 1 {
        seq![',']
    } else {
        seq![]
    }
}

/// Whether every number in `j` is one by the JSON grammar.
pub open spec fn well_formed(j: JsonView) -> bool
    decreases j,
{
    match j {
        JsonView::Number(t) => is_number_text(t),
        JsonView::Array(v) => forall|i: int| 0 <= i < v.len() ==> well_formed(#[trigger] v[i]),
        JsonView::Object(v) => forall|i: int|
            0 <= i < v.len() ==> well_formed((#[trigger] v[i]).1),
        _ => true,
    }
}

/// Whether `s` holds no control character below the space, and so no line
/// break.
pub open spec fn one_line(s: Seq<char>) -> bool {
    forall|i: int| 0 <= i < s.len() ==> (#[trigger] s[i]) as u32 >= 32
}

/// A JSON string takes at most six bytes for each byte of the string, and two
/// for the quotes.
pub proof fn lemma_quoted_len(s: Seq<char>)
    ensures
        utf8_len(quoted(s)) <= 6 * utf8_len(s) + 2,
{
    lemma_escaped_len(s);
    let quote = seq!['"'];
    lemma_utf8_concat(quote + escaped(s), quote);
    lemma_utf8_concat(quote, escaped(s));
    lemma_utf8_len_push(seq![], '"');
    assert(Seq::<char>::empty().push('"') == quote);
}

/// One more member takes at most its own bytes and six for each byte of the
/// key, and four more.
pub proof fn lemma_members_len(v: Seq<(Seq<char>, JsonView)>, key: Seq<char>, value: JsonView)
    ensures
        utf8_len(members_text(v.push((key, value)))) <= utf8_len(members_text(v)) + 6 * utf8_len(
            key,
        ) + utf8_len(json_text(value)) + 4,
{
    let all = v.push((key, value));
    assert(all.drop_last() == v);
    let comma = separator(all.len());
    let start = members_text(v);
    lemma_quoted_len(key);
    assert(utf8_len(comma) <= 1) by {
        if all.len() > 1 {
            lemma_ascii_len(seq![',']);
        } else {
            lemma_ascii_len(seq![]);
        }
    }
    lemma_ascii_len(seq![':']);
    lemma_utf8_concat(start, comma);
    lemma_utf8_concat(start + comma, quoted(key));
    lemma_utf8_concat(start + comma + quoted(key), seq![':']);
    lemma_utf8_concat(start + comma + quoted(key) + seq![':'], json_text(value));
}

/// An object takes two bytes more than its members.
pub proof fn lemma_object_len(v: Seq<(Seq<char>, JsonView)>)
    ensures
        utf8_len(json_text(JsonView::Object(v))) == utf8_len(members_text(v)) + 2,
{
    lemma_ascii_len(seq!['{']);
    lemma_ascii_len(seq!['}']);
    lemma_utf8_concat(seq!['{'], members_text(v));
    lemma_utf8_concat(seq!['{'] + members_text(v), seq!['}']);
}

proof fn lemma_escaped_len(s: Seq<char>)
    ensures
        utf8_len(escaped(s)) <= 6 * utf8_len(s),
    decreases s.len(),
{
    if s.len() > 0 {
        let front = s.drop_last();
        let c = s.last();
        lemma_escaped_len(front);
        assert(front.push(c) == s);
        lemma_utf8_len_push(front, c);
        lemma_utf8_concat(escaped(front), escaped_char(c));
        if escaped_char(c) == seq![c] {
            lemma_utf8_len_push(seq![], c);
            assert(Seq::<char>::empty().push(c) == seq![c]);
        } else {
            assert(hex_char((c as u32) as nat / 16) as u32 <= 127 || c as u32 >= 32);
            assert(hex_char((c as u32) as nat % 16) as u32 <= 127);
            lemma_ascii_len(escaped_char(c));
        }
    }
}

proof fn lemma_one_line_decimal(n: nat)
    ensures
        one_line(decimal(n)),
    decreases n,
{
    if n >= 10 {
        lemma_one_line_decimal(n / 10);
    }
}

proof fn lemma_one_line_escaped(s: Seq<char>)
    ensures
        one_line(escaped(s)),
    decreases s.len(),
{
    if s.len() > 0 {
        lemma_one_line_escaped(s.drop_last());
        let c = s.last();
        assert(hex_char((c as u32) as nat / 16) as u32 >= 32 || c as u32 >= 32);
        assert(hex_char((c as u32) as nat % 16) as u32 >= 32);
        assert(one_line(escaped_char(c)));
    }
}

proof fn lemma_digit_run(s: Seq<char>)
    ensures
        digit_run(s) <= s.len(),
        forall|i: int| 0 <= i < digit_run(s) ==> is_digit(#[trigger] s[i]),
    decreases s.len(),
{
    if s.len() > 0 && is_digit(s[0]) {
        lemma_digit_run(s.skip(1));
        assert forall|i: int| 0 <= i < digit_run(s) implies is_digit(#[trigger] s[i]) by {
            if i > 0 {
                assert(s.skip(1)[i - 1] == s[i]);
            }
        }
    }
}

proof fn lemma_one_line_exponent(s: Seq<char>)
    requires
        is_exponent(s),
    ensures
        one_line(s),
{
    if s.len() > 0 {
        let signed = s.len() > 1 && (s[1] == '+' || s[1] == '-');
        let from: int = if signed {
            2
        } else {
            1
        };
        let digits = s.skip(from);
        lemma_digit_run(digits);
        assert forall|i: int| 0 <= i < s.len() implies (#[trigger] s[i]) as u32 >= 32 by {
            if i >= from {
                assert(is_digit(digits[i - from]));
            }
        }
    }
}

proof fn lemma_one_line_fraction(s: Seq<char>)
    requires
        is_fraction(s),
    ensures
        one_line(s),
{
    if s.len() > 0 && s[0] == '.' {
        let decimals = s.skip(1);
        lemma_digit_run(decimals);
        let m = digit_run(decimals) as int;
        let exponent = s.skip(1 + m);
        lemma_one_line_exponent(exponent);
        assert forall|i: int| 0 <= i < s.len() implies (#[trigger] s[i]) as u32 >= 32 by {
            if i >= 1 + m {
                assert(exponent[i - 1 - m] == s[i]);
            } else if i > 0 {
                assert(is_digit(decimals[i - 1]));
            }
        }
    } else {
        lemma_one_line_exponent(s);
    }
}

proof fn lemma_one_line_number(s: Seq<char>)
    requires
        is_number_text(s),
    ensures
        one_line(s),
{
    let from: int = if s[0] == '-' {
        1
    } else {
        0
    };
    let unsigned = s.skip(from);
    assert(s.skip(0) == s);
    lemma_digit_run(unsigned);
    let n = digit_run(unsigned) as int;
    let tail = unsigned.skip(n);
    lemma_one_line_fraction(tail);
    assert forall|i: int| 0 <= i < s.len() implies (#[trigger] s[i]) as u32 >= 32 by {
        if i >= from + n {
            assert(tail[i - from - n] == s[i]);
        } else if i >= from {
            assert(is_digit(unsigned[i - from]));
        }
    }
}

/// The compact text of a value never spans two lines, whatever strings the
/// value holds.
pub proof fn law_text_is_one_line(j: JsonView)
    requires
        well_formed(j),
    ensures
        one_line(json_text(j)),
    decreases j,
{
    match j {
        JsonView::Null => {
            reveal_strlit("null");
        },
        JsonView::Bool(_) => {
            reveal_strlit("true");
            reveal_strlit("false");
        },
        JsonView::Int(n) => {
            lemma_one_line_decimal(n as nat);
            lemma_one_line_decimal((-n) as nat);
        },
        JsonView::Number(t) => {
            lemma_one_line_number(t);
        },
        JsonView::Str(s) => {
            lemma_one_line_escaped(s);
        },
        JsonView::Array(v) => {
            lemma_one_line_elements(v);
        },
        JsonView::Object(v) => {
            lemma_one_line_members(v);
        },
    }
}

proof fn lemma_one_line_elements(v: Seq<JsonView>)
    requires
        forall|i: int| 0 <= i < v.len() ==> well_formed(#[trigger] v[i]),
    ensures
        one_line(elements_text(v)),
    decreases v,
{
    if v.len() > 0 {
        let front = v.drop_last();
        assert(forall|i: int| 0 <= i < front.len() ==> front[i] == v[i]);
        lemma_one_line_elements(front);
        law_text_is_one_line(v.last());
    }
}

proof fn lemma_one_line_members(v: Seq<(Seq<char>, JsonView)>)
    requires
        forall|i: int| 0 <= i < v.len() ==> well_formed((#[trigger] v[i]).1),
    ensures
        one_line(members_text(v)),
    decreases v,
{
    if v.len() > 0 {
        let front = v.drop_last();
        assert(forall|i: int| 0 <= i < front.len() ==> front[i] == v[i]);
        lemma_one_line_members(front);
        law_text_is_one_line(v.last().1);
        lemma_one_line_escaped(v.last().0);
    }
}

/// A string can be read back from its JSON text: two strings with the same
/// text are the same.
pub proof fn law_quoting_is_injective(a: Seq<char>, b: Seq<char>)
    requires
        quoted(a) == quoted(b),
    ensures
        a == b,
{
    let code = |c: char| escaped_char(c);
    assert forall|c: char, d: char| c != d implies !(#[trigger] code(c)).is_prefix_of(
        #[trigger] code(d),
    ) by {
        lemma_escapes_differ(c, d);
    }
    assert(escaped(a) == quoted(a).subrange(1, quoted(a).len() - 1));
    assert(escaped(b) == quoted(b).subrange(1, quoted(b).len() - 1));
    lemma_rewritten_injective(a, b, code);
}

proof fn lemma_escapes_differ(c: char, d: char)
    requires
        c != d,
    ensures
        !escaped_char(c).is_prefix_of(escaped_char(d)),
{
    let x = escaped_char(c);
    let y = escaped_char(d);
    if x.is_prefix_of(y) {
        assert(x[0] == y[0]);
        assert(x.len() > 1 ==> x[1] == y[1]);
        assert(x.len() > 4 ==> x[4] == y[4] && x[5] == y[5]);
    }
}

/// `serde_json::to_string` of a string slice: the slice as a JSON string. The
/// quote, the backslash and the control characters below the space are
/// escaped, each in its shortest form; every other character stands for
/// itself. Writing a string into memory does not fail.
#[verifier::external_body]
fn serde_json_string(s: &str) -> (r: String)
    ensures
        r@ == quoted(s@),
{
    serde_json::to_string(s).unwrap_or_default()
}

/// The value of a string that may be absent.
pub open spec fn string_or_null(s: Option<Seq<char>>) -> JsonView {
    match s {
        Some(t) => JsonView::Str(t),
        None => JsonView::Null,
    }
}

/// The value of an integer that may be absent.
pub open spec fn int_or_null(n: Option<i64>) -> JsonView {
    match n {
        Some(i) => JsonView::Int(i as int),
        None => JsonView::Null,
    }
}

impl Member {
    /// The member `key` with `value`.
    pub fn new(key: &str, value: Json) -> (m: Member)
        ensures
            m@ == (key@, value@),
    {
        Member { key: key.to_owned(), value }
    }
}

impl Json {
    /// The object with these members.
    pub fn object(members: Vec<Member>) -> (j: Json)
        ensures
            j@ == JsonView::Object(member_views(members@)),
    {
        let j = Json::Object(members);
        assert(j@->Object_0 == member_views(members@));
        j
    }

    /// The array of these elements.
    pub fn array(elements: Vec<Json>) -> (j: Json)
        ensures
            j@ == JsonView::Array(element_views(elements@)),
    {
        let j = Json::Array(elements);
        assert(j@->Array_0 == element_views(elements@));
        j
    }

    /// The string `s`.
    pub fn text(s: &str) -> (j: Json)
        ensures
            j@ == JsonView::Str(s@),
    {
        Json::Str(s.to_owned())
    }

    /// The string `s`, or null where there is none.
    pub fn optional_text(s: Option<String>) -> (j: Json)
        ensures
            j@ == string_or_null(s.deep_view()),
    {
        match s {
            Some(t) => Json::Str(t),
            None => Json::Null,
        }
    }

    /// The integer `n`, or null where there is none.
    pub fn optional_int(n: Option<i64>) -> (j: Json)
        ensures
            j@ == int_or_null(n),
    {
        match n {
            Some(i) => Json::Int(i),
            None => Json::Null,
        }
    }

    /// The compact text of this value.
    pub fn encode(&self) -> (r: String)
        ensures
            r@ == json_text(self@),
            well_formed(self@),
            one_line(r@),
    {
        let mut out = String::new();
        self.encode_into(&mut out);
        assert(out@ == json_text(self@));
        proof {
            law_text_is_one_line(self@);
        }
        out
    }

    fn encode_into(&self, out: &mut String)
        ensures
            final(out)@ == old(out)@ + json_text(self@),
            well_formed(self@),
        decreases self,
    {
        match self {
            Json::Null => {
                out.append("null");
            },
            Json::Bool(b) => {
                if *b {
                    out.append("true");
                } else {
                    out.append("false");
                }
            },
            Json::Int(n) => {
                out.append(decimal_i64(*n).as_str());
            },
            Json::UInt(n) => {
                out.append(decimal_u64(*n).as_str());
            },
            Json::Number(n) => {
                proof {
                    use_type_invariant(n);
                }
                out.append(n.text.as_str());
            },
            Json::Str(s) => {
                out.append(serde_json_string(s.as_str()).as_str());
            },
            Json::Array(v) => {
                out.push('[');
                encode_elements(v, out);
                out.push(']');
                assert(out@ == old(out)@ + json_text(self@));
            },
            Json::Object(v) => {
                out.push('{');
                encode_members(v, out);
                out.push('}');
                assert(out@ == old(out)@ + json_text(self@));
            },
        }
    }
}

fn encode_elements(v: &Vec<Json>, out: &mut String)
    ensures
        final(out)@ == old(out)@ + elements_text(json_view(Json::Array(*v))->Array_0),
        well_formed(json_view(Json::Array(*v))),
    decreases v,
{
    let ghost start = out@;
    let ghost views = json_view(Json::Array(*v))->Array_0;
    let mut i: usize = 0;
    while i < v.len()
        invariant
            i <= v@.len(),
            views == json_view(Json::Array(*v))->Array_0,
            views.len() == v@.len(),
            out@ == start + elements_text(views.take(i as int)),
            forall|k: int| 0 <= k < i ==> well_formed(#[trigger] views[k]),
        decreases v@.len() - i,
    {
        let ghost after = views.take(i + 1);
        assert(after.drop_last() == views.take(i as int));
        assert(after.last() == v@[i as int]@);
        if i > 0 {
            out.push(',');
        }
        v[i].encode_into(out);
        assert(out@ == start + elements_text(after));
        i += 1;
    }
    assert(views.take(v@.len() as int) == views);
}

fn encode_members(v: &Vec<Member>, out: &mut String)
    ensures
        final(out)@ == old(out)@ + members_text(json_view(Json::Object(*v))->Object_0),
        well_formed(json_view(Json::Object(*v))),
    decreases v,
{
    let ghost start = out@;
    let ghost views = json_view(Json::Object(*v))->Object_0;
    let mut i: usize = 0;
    while i < v.len()
        invariant
            i <= v@.len(),
            views == json_view(Json::Object(*v))->Object_0,
            views.len() == v@.len(),
            out@ == start + members_text(views.take(i as int)),
            forall|k: int| 0 <= k < i ==> well_formed((#[trigger] views[k]).1),
        decreases v@.len() - i,
    {
        let ghost after = views.take(i + 1);
        assert(after.drop_last() == views.take(i as int));
        assert(after.last() == (v@[i as int].key@, v@[i as int].value@));
        if i > 0 {
            out.push(',');
        }
        out.append(serde_json_string(v[i].key.as_str()).as_str());
        out.push(':');
        v[i].value.encode_into(out);
        assert(out@ == start + members_text(after));
        i += 1;
    }
    assert(views.take(v@.len() as int) == views);
}

/// The text of a scalar: the words of JSON, the decimal text of an integer, a
/// number as it is, and a string between quotes.
pub proof fn law_text_of_scalars(n: int, t: Seq<char>)
    ensures
        json_text(JsonView::Null) == "null"@,
        json_text(JsonView::Bool(true)) == "true"@,
        json_text(JsonView::Bool(false)) == "false"@,
        json_text(JsonView::Int(n)) == signed_decimal(n),
        json_text(JsonView::Number(t)) == t,
        json_text(JsonView::Str(t)) == seq!['"'] + escaped(t) + seq!['"'],
{
}

/// An array is its elements between brackets, with commas between them: one
/// more element stands behind the others.
pub proof fn law_text_of_arrays(v: Seq<JsonView>, last: JsonView)
    ensures
        json_text(JsonView::Array(seq![])) == "[]"@,
        json_text(JsonView::Array(seq![last])) == "["@ + json_text(last) + "]"@,
        v.len() > 0 ==> json_text(JsonView::Array(v.push(last))) == json_text(
            JsonView::Array(v),
        ).drop_last() + ","@ + json_text(last) + "]"@,
{
    reveal_strlit("[]");
    reveal_strlit("[");
    reveal_strlit("]");
    reveal_strlit(",");
    assert(seq!['['] + elements_text(seq![]) + seq![']'] == "[]"@);
    assert(seq![last].drop_last() == Seq::<JsonView>::empty());
    assert(elements_text(seq![last]) == json_text(last));
    assert(seq!['['] == "["@ && seq![']'] == "]"@ && seq![','] == ","@);
    let all = v.push(last);
    assert(all.drop_last() == v);
    if v.len() > 0 {
        assert(json_text(JsonView::Array(v)).drop_last() == seq!['['] + elements_text(v));
        assert(json_text(JsonView::Array(all)) == seq!['['] + elements_text(v) + seq![',']
            + json_text(last) + seq![']']);
    }
}

/// An object is its members between braces, with commas between them: one more
/// member, its key as a string, a colon and its value, stands behind the others.
pub proof fn law_text_of_objects(v: Seq<(Seq<char>, JsonView)>, key: Seq<char>, value: JsonView)
    ensures
        json_text(JsonView::Object(seq![])) == "{}"@,
        json_text(JsonView::Object(seq![(key, value)])) == "{"@ + json_text(JsonView::Str(key))
            + ":"@ + json_text(value) + "}"@,
        v.len() > 0 ==> json_text(JsonView::Object(v.push((key, value)))) == json_text(
            JsonView::Object(v),
        ).drop_last() + ","@ + json_text(JsonView::Str(key)) + ":"@ + json_text(value) + "}"@,
{
    reveal_strlit("{}");
    reveal_strlit("{");
    reveal_strlit("}");
    reveal_strlit(",");
    reveal_strlit(":");
    assert(seq!['{'] + members_text(seq![]) + seq!['}'] == "{}"@);
    let one = seq![(key, value)];
    assert(one.drop_last() == Seq::<(Seq<char>, JsonView)>::empty());
    assert(members_text(one) == quoted(key) + seq![':'] + json_text(value));
    assert(seq!['{'] == "{"@ && seq!['}'] == "}"@ && seq![','] == ","@ && seq![':'] == ":"@);
    assert(json_text(JsonView::Object(one)) == "{"@ + quoted(key) + ":"@ + json_text(value)
        + "}"@);
    let all = v.push((key, value));
    assert(all.drop_last() == v);
    if v.len() > 0 {
        assert(json_text(JsonView::Object(v)).drop_last() == seq!['{'] + members_text(v));
        assert(json_text(JsonView::Object(all)) == seq!['{'] + members_text(v) + seq![',']
            + quoted(key) + seq![':'] + json_text(value) + seq!['}']);
    }
}

/// A string is escaped character by character. The quote, the backslash and the
/// control characters below the space stand behind a backslash; every other
/// character stands for itself.
pub proof fn law_escapes(a: Seq<char>, b: Seq<char>, c: char)
    ensures
        escaped(a + b) == escaped(a) + escaped(b),
        c == '"' ==> escaped(seq![c]) == seq!['\\', '"'],
        c == '\\' ==> escaped(seq![c]) == seq!['\\', '\\'],
        c == '\n' ==> escaped(seq![c]) == seq!['\\', 'n'],
        c == '\r' ==> escaped(seq![c]) == seq!['\\', 'r'],
        c == '\t' ==> escaped(seq![c]) == seq!['\\', 't'],
        c as u32 == 8 ==> escaped(seq![c]) == seq!['\\', 'b'],
        c as u32 == 12 ==> escaped(seq![c]) == seq!['\\', 'f'],
        (c as u32) < 32 && c != '\n' && c != '\r' && c != '\t' && c as u32 != 8 && c as u32 != 12
            ==> escaped(seq![c]) == "\\u00"@ + hex_digits((c as u32) as nat, 2),
        c as u32 >= 32 && c != '"' && c != '\\' ==> escaped(seq![c]) == seq![c],
{
    let code = |x: char| escaped_char(x);
    lemma_rewritten_concat(a, b, code);
    assert(seq![c].drop_last() == Seq::<char>::empty());
    assert(escaped(Seq::<char>::empty()) == Seq::<char>::empty());
    assert(escaped(seq![c]) == escaped(Seq::<char>::empty()) + escaped_char(c));
    if (c as u32) < 32 {
        reveal_strlit("\\u00");
        reveal_with_fuel(hex_digits, 3);
        let n = (c as u32) as nat;
        assert((n / 16) % 16 == n / 16);
        assert(hex_digits(n, 2) == seq![hex_char(n / 16), hex_char(n % 16)]);
    }
}

/// What a value stands for is what it holds.
pub proof fn law_value_of_json(
    b: bool,
    i: i64,
    u: u64,
    n: Number,
    s: String,
    array: Vec<Json>,
    object: Vec<Member>,
    k: int,
)
    ensures
        json_view(Json::Null) == JsonView::Null,
        json_view(Json::Bool(b)) == JsonView::Bool(b),
        json_view(Json::Int(i)) == JsonView::Int(i as int),
        json_view(Json::UInt(u)) == JsonView::Int(u as int),
        json_view(Json::Number(n)) == JsonView::Number(n@),
        json_view(Json::Str(s)) == JsonView::Str(s@),
        json_view(Json::Array(array)) is Array,
        json_view(Json::Array(array))->Array_0.len() == array@.len(),
        0 <= k < array@.len() ==> json_view(Json::Array(array))->Array_0[k] == json_view(array@[k]),
        json_view(Json::Object(object)) is Object,
        json_view(Json::Object(object))->Object_0.len() == object@.len(),
        0 <= k < object@.len() ==> json_view(Json::Object(object))->Object_0[k] == (
            object@[k].key@,
            json_view(object@[k].value),
        ),
        string_or_null(None) == JsonView::Null,
        string_or_null(Some(s@)) == JsonView::Str(s@),
        int_or_null(None) == JsonView::Null,
        int_or_null(Some(i)) == JsonView::Int(i as int),
{
}

/// Whether `j` is an object with a member `key` whose value is `value`.
pub open spec fn has_member(j: JsonView, key: Seq<char>, value: JsonView) -> bool {
    j is Object && j->Object_0.contains((key, value))
}

/// Whether `j` is an object with `n` members.
pub open spec fn has_members(j: JsonView, n: nat) -> bool {
    j is Object && j->Object_0.len() == n
}

proof fn lemma_digit_run_of(digits: Seq<char>, rest: Seq<char>)
    requires
        forall|i: int| 0 <= i < digits.len() ==> '0' <= #[trigger] digits[i] && digits[i] <= '9',
        rest.len() > 0 ==> !('0' <= rest[0] && rest[0] <= '9'),
    ensures
        digit_run(digits + rest) == digits.len(),
    decreases digits.len(),
{
    let all = digits + rest;
    if digits.len() > 0 {
        let fewer = digits.skip(1);
        assert(all[0] == digits[0]);
        assert(all.skip(1) == fewer + rest);
        assert forall|i: int| 0 <= i < fewer.len() implies '0' <= #[trigger] fewer[i] && fewer[i]
            <= '9' by {
            assert(fewer[i] == digits[i + 1]);
        }
        lemma_digit_run_of(fewer, rest);
    } else {
        assert(all == rest);
    }
}

/// A number has an integer part without superfluous zeros, and may have a sign,
/// a fraction and an exponent; each part has at least one digit.
pub proof fn law_number_grammar(
    minus: bool,
    whole: Seq<char>,
    point: bool,
    fraction: Seq<char>,
    exponent: bool,
    e: char,
    sign: Seq<char>,
    power: Seq<char>,
)
    requires
        forall|i: int| 0 <= i < whole.len() ==> '0' <= #[trigger] whole[i] && whole[i] <= '9',
        forall|i: int|
            0 <= i < fraction.len() ==> '0' <= #[trigger] fraction[i] && fraction[i] <= '9',
        forall|i: int| 0 <= i < power.len() ==> '0' <= #[trigger] power[i] && power[i] <= '9',
        e == 'e' || e == 'E',
        sign.len() == 0 || sign == seq!['+'] || sign == seq!['-'],
    ensures
        ({
            let tail = if exponent {
                seq![e] + sign + power
            } else {
                seq![]
            };
            let middle = if point {
                seq!['.'] + fraction + tail
            } else {
                tail
            };
            let text = if minus {
                seq!['-'] + (whole + middle)
            } else {
                whole + middle
            };
            is_number_text(text) <==> {
                &&& whole.len() > 0
                &&& whole[0] == '0' ==> whole.len() == 1
                &&& point ==> fraction.len() > 0
                &&& exponent ==> power.len() > 0
            }
        }),
{
    let tail = if exponent {
        seq![e] + sign + power
    } else {
        seq![]
    };
    let middle = if point {
        seq!['.'] + fraction + tail
    } else {
        tail
    };
    let unsigned = whole + middle;
    lemma_digit_run_of(whole, middle);
    assert(unsigned.skip(whole.len() as int) == middle);
    assert((seq!['-'] + unsigned).skip(1) == unsigned);
    if whole.len() > 0 {
        assert(unsigned[0] == whole[0]);
    }
    if exponent {
        let digits = if sign.len() == 0 {
            tail.skip(1)
        } else {
            tail.skip(2)
        };
        assert(digits == power);
        lemma_digit_run_of(power, seq![]);
        assert(power + Seq::<char>::empty() == power);
        if sign.len() == 0 && power.len() > 0 {
            assert(tail[1] == power[0]);
        }
    }
    if point {
        assert(middle.skip(1) == fraction + tail);
        lemma_digit_run_of(fraction, tail);
        assert(middle.skip(1 + fraction.len() as int) == tail);
    }
}

/// Whether `s` is one or more digits.
pub open spec fn are_digits(s: Seq<char>) -> bool {
    s.len() > 0 && forall|i: int| 0 <= i < s.len() ==> '0' <= #[trigger] s[i] && s[i] <= '9'
}

/// Whether `s` is empty or an exponent: the letter, a sign or none, and digits.
pub open spec fn is_power(s: Seq<char>) -> bool {
    s.len() == 0 || {
        &&& s[0] == 'e' || s[0] == 'E'
        &&& are_digits(s.skip(1)) || (s.len() > 1 && (s[1] == '+' || s[1] == '-') && are_digits(
            s.skip(2),
        ))
    }
}

/// A number is nothing but an optional minus sign, an integer part, an optional
/// fraction and an optional exponent.
pub proof fn law_number_parts(s: Seq<char>)
    requires
        is_number_text(s),
    ensures
        exists|sign: Seq<char>, whole: Seq<char>, fraction: Seq<char>, power: Seq<char>|
            {
                &&& s == #[trigger] (sign + whole + fraction + power)
                &&& sign.len() == 0 || sign == seq!['-']
                &&& are_digits(whole)
                &&& whole[0] == '0' ==> whole.len() == 1
                &&& fraction.len() == 0 || (fraction[0] == '.' && are_digits(fraction.skip(1)))
                &&& is_power(power)
            },
{
    let from: int = if s[0] == '-' {
        1
    } else {
        0
    };
    let unsigned = s.skip(from);
    assert(s.skip(0) == s);
    lemma_digit_run(unsigned);
    let n = digit_run(unsigned) as int;
    let sign = s.take(from);
    let whole = unsigned.take(n);
    let tail = unsigned.skip(n);
    assert(sign.len() == 0 || sign == seq!['-']);
    assert(are_digits(whole)) by {
        assert forall|i: int| 0 <= i < whole.len() implies '0' <= #[trigger] whole[i] && whole[i]
            <= '9' by {
            assert(is_digit(unsigned[i]));
        }
    }
    if tail.len() > 0 && tail[0] == '.' {
        let decimals = tail.skip(1);
        lemma_digit_run(decimals);
        let k = digit_run(decimals) as int;
        let fraction = tail.take(1 + k);
        let power = tail.skip(1 + k);
        assert(fraction.skip(1) == decimals.take(k));
        assert(are_digits(decimals.take(k))) by {
            assert forall|i: int| 0 <= i < k implies '0' <= #[trigger] decimals.take(k)[i]
                && decimals.take(k)[i] <= '9' by {
                assert(is_digit(decimals[i]));
            }
        }
        lemma_power(power);
        assert(s == sign + whole + fraction + power);
    } else {
        let fraction = Seq::<char>::empty();
        lemma_power(tail);
        assert(s == sign + whole + fraction + tail);
    }
}

proof fn lemma_power(s: Seq<char>)
    requires
        is_exponent(s),
    ensures
        is_power(s),
{
    if s.len() > 0 {
        let digits = if s.len() > 1 && (s[1] == '+' || s[1] == '-') {
            s.skip(2)
        } else {
            s.skip(1)
        };
        lemma_digit_run(digits);
        assert forall|i: int| 0 <= i < digits.len() implies '0' <= #[trigger] digits[i] && digits[i]
            <= '9' by {
            assert(is_digit(digits[i]));
        }
        assert(are_digits(digits));
    }
}

/// Elements and members stand in the order in which they are given.
pub proof fn law_parts_in_order(elements: Seq<Json>, members: Seq<Member>, i: int)
    ensures
        element_views(elements).len() == elements.len(),
        0 <= i < elements.len() ==> element_views(elements)[i] == json_view(elements[i]),
        member_views(members).len() == members.len(),
        0 <= i < members.len() ==> member_views(members)[i] == (
            members[i].key@,
            json_view(members[i].value),
        ),
{
}

} // verus!
