//! SQL text: bound values as literals, placeholder substitution, and whether a
//! statement reads. Everything here is for display; no text is ever executed.

use vstd::prelude::*;
use crate::frame::{truncate, truncated};
use crate::json::{Json, JsonView};
use crate::php::{Double, Entry, PhpValue};
use crate::text::{
    char_width, chars_of, decimal_i64, lemma_ascii_len, lemma_rewritten_concat,
    lemma_rewritten_first, lemma_utf8_concat, lemma_utf8_len_push, rewritten, signed_decimal,
    str_eq, string_of, utf8_len, width_of,
};

verus! {

/// What `char::is_alphanumeric` returns.
pub uninterp spec fn alphanumeric(c: char) -> bool;

/// `char::is_alphanumeric`: whether a character is a letter or a number by its
/// Unicode properties. Of the ASCII characters those are the letters and the
/// digits.
pub assume_specification[ char::is_alphanumeric ](c: char) -> (r: bool)
    ensures
        r == alphanumeric(c),
        (c as u32) < 128 ==> (r <==> ('0' <= c && c <= '9') || ('A' <= c && c <= 'Z') || ('a' <= c
            && c <= 'z')),
;

/// What `char::is_whitespace` returns.
pub uninterp spec fn whitespace(c: char) -> bool;

/// `char::is_whitespace`: whether a character has the Unicode property
/// `White_Space`. Of the ASCII characters those are the space and the control
/// characters from the tab to the carriage return.
pub assume_specification[ char::is_whitespace ](c: char) -> (r: bool)
    ensures
        r == whitespace(c),
        (c as u32) < 128 ==> (r <==> c == ' ' || (9 <= c as u32 && c as u32 <= 13)),
;

/// Whether `c` is a letter or a digit: by its Unicode properties where it is not
/// an ASCII character.
pub open spec fn is_letter_or_digit(c: char) -> bool {
    if (c as u32) < 128 {
        ('0' <= c && c <= '9') || ('A' <= c && c <= 'Z') || ('a' <= c && c <= 'z')
    } else {
        alphanumeric(c)
    }
}

/// Whether `c` is white space: by its Unicode properties where it is not an
/// ASCII character.
pub open spec fn is_blank(c: char) -> bool {
    if (c as u32) < 128 {
        c == ' ' || (9 <= c as u32 && c as u32 <= 13)
    } else {
        whitespace(c)
    }
}

/// Whether `c` can stand in the name of a placeholder.
pub open spec fn is_name_char(c: char) -> bool {
    is_letter_or_digit(c) || c == '_'
}

/// How many name characters `s` begins with.
pub open spec fn name_len(s: Seq<char>) -> nat
    decreases s.len(),
{
    if s.len() > 0 && is_name_char(s[0]) {
        1 + name_len(s.skip(1))
    } else {
        0
    }
}

/// The length of what follows the opening quote of a string literal, up to and
/// with the closing quote. Two quotes in a row stand for one and do not close
/// the literal. A literal that is not closed extends to the end.
pub open spec fn literal_rest_len(s: Seq<char>) -> nat
    decreases s.len(),
{
    if s.len() == 0 {
        0
    } else if s[0] != '\'' {
        1 + literal_rest_len(s.skip(1))
    } else if s.len() > 1 && s[1] == '\'' {
        2 + literal_rest_len(s.skip(2))
    } else {
        1
    }
}

/// A string literal lies within its text.
pub proof fn lemma_literal_rest_len(s: Seq<char>)
    ensures
        literal_rest_len(s) <= s.len(),
    decreases s.len(),
{
    if s.len() > 0 {
        if s[0] != '\'' {
            lemma_literal_rest_len(s.skip(1));
        } else if s.len() > 1 && s[1] == '\'' {
            lemma_literal_rest_len(s.skip(2));
        }
    }
}

/// A name lies within its text, and is made of name characters.
pub proof fn lemma_name_len(s: Seq<char>)
    ensures
        name_len(s) <= s.len(),
        forall|i: int| 0 <= i < name_len(s) ==> is_name_char(#[trigger] s[i]),
    decreases s.len(),
{
    if s.len() > 0 && is_name_char(s[0]) {
        lemma_name_len(s.skip(1));
        assert forall|i: int| 0 <= i < name_len(s) implies is_name_char(#[trigger] s[i]) by {
            if i > 0 {
                assert(s.skip(1)[i - 1] == s[i]);
            }
        }
    }
}

/// The values that the names of `named` stand for; of two with one name, the
/// later.
pub open spec fn named_values(named: Seq<(Seq<char>, Seq<char>)>) -> Map<Seq<char>, Seq<char>>
    decreases named.len(),
{
    if named.len() == 0 {
        Map::empty()
    } else {
        named_values(named.drop_last()).insert(named.last().0, named.last().1)
    }
}

/// `sql` with its placeholders replaced: each `?` by the next positional
/// value, as long as there is one, and each `:name` by the value of that name,
/// where there is one. String literals stay as they are.
pub open spec fn substituted(
    sql: Seq<char>,
    positional: Seq<Seq<char>>,
    named: Map<Seq<char>, Seq<char>>,
) -> Seq<char>
    decreases sql.len(),
{
    if sql.len() == 0 {
        seq![]
    } else if sql[0] == '\'' {
        proof {
            lemma_literal_rest_len(sql.skip(1));
        }
        let n = 1 + literal_rest_len(sql.skip(1)) as int;
        sql.take(n) + substituted(sql.skip(n), positional, named)
    } else if sql[0] == '?' && positional.len() > 0 {
        positional[0] + substituted(sql.skip(1), positional.skip(1), named)
    } else if sql[0] == ':' {
        proof {
            lemma_name_len(sql.skip(1));
        }
        let n = 1 + name_len(sql.skip(1)) as int;
        let name = sql.subrange(1, n);
        (if n > 1 && named.contains_key(name) {
            named[name]
        } else {
            sql.take(n)
        }) + substituted(sql.skip(n), positional, named)
    } else {
        sql.take(1) + substituted(sql.skip(1), positional, named)
    }
}

/// A view of pairs of strings.
pub open spec fn pair_views(v: Seq<(String, String)>) -> Seq<(Seq<char>, Seq<char>)> {
    v.map_values(|p: (String, String)| (p.0@, p.1@))
}

/// The value of `name`, if it has one.
fn lookup<'a>(named: &'a Vec<(String, String)>, name: &str) -> (r: Option<&'a String>)
    ensures
        r is Some <==> named_values(pair_views(named@)).contains_key(name@),
        r matches Some(v) ==> v@ == named_values(pair_views(named@))[name@],
{
    let ghost pairs = pair_views(named@);
    let mut k: usize = named.len();
    assert(pairs.take(k as int) == pairs);
    while k > 0
        invariant
            k <= named@.len(),
            pairs == pair_views(named@),
            named_values(pairs).contains_key(name@) <==> named_values(
                pairs.take(k as int),
            ).contains_key(name@),
            named_values(pairs).contains_key(name@) ==> named_values(pairs)[name@] == named_values(
                pairs.take(k as int),
            )[name@],
        decreases k,
    {
        let ghost front = pairs.take(k as int);
        assert(front.drop_last() == pairs.take(k - 1));
        assert(front.last() == pairs[k - 1]);
        k -= 1;
        if str_eq(named[k].0.as_str(), name) {
            return Some(&named[k].1);
        }
    }
    None
}

/// The index behind the string literal whose opening quote stands just before
/// `from`.
fn literal_end(v: &Vec<char>, from: usize) -> (end: usize)
    requires
        from <= v@.len(),
    ensures
        from <= end <= v@.len(),
        end == from + literal_rest_len(v@.skip(from as int)),
{
    let mut i: usize = from;
    while i < v.len()
        invariant
            from <= i <= v@.len(),
            i + literal_rest_len(v@.skip(i as int)) == from + literal_rest_len(
                v@.skip(from as int),
            ),
        decreases v@.len() - i,
    {
        let ghost s = v@.skip(i as int);
        assert(s[0] == v@[i as int]);
        if v[i] != '\'' {
            assert(s.skip(1) == v@.skip(i + 1));
            i += 1;
        } else if v.len() - i > 1 && v[i + 1] == '\'' {
            assert(s[1] == v@[i + 1]);
            assert(s.skip(2) == v@.skip(i + 2));
            i += 2;
        } else {
            return i + 1;
        }
    }
    i
}

/// The index behind the name characters that begin at `from`.
fn name_end(v: &Vec<char>, from: usize) -> (end: usize)
    requires
        from <= v@.len(),
    ensures
        from <= end <= v@.len(),
        end == from + name_len(v@.skip(from as int)),
{
    let mut i: usize = from;
    while i < v.len() && (v[i].is_alphanumeric() || v[i] == '_')
        invariant
            from <= i <= v@.len(),
            i + name_len(v@.skip(i as int)) == from + name_len(v@.skip(from as int)),
        decreases v@.len() - i,
    {
        assert(v@.skip(i as int)[0] == v@[i as int]);
        assert(v@.skip(i as int).skip(1) == v@.skip(i + 1));
        i += 1;
    }
    assert(i < v@.len() ==> v@.skip(i as int)[0] == v@[i as int]);
    i
}

/// Replaces the placeholders of `sql`: positional `?` in order, and named
/// `:name`. What stands inside a single-quoted string literal is left alone.
pub fn substitute(sql: &str, positional: &Vec<String>, named: &Vec<(String, String)>) -> (r: String)
    ensures
        r@ == substituted(sql@, positional.deep_view(), named_values(pair_views(named@))),
{
    let v = chars_of(sql);
    let ghost values = positional.deep_view();
    let ghost names = named_values(pair_views(named@));
    let mut out = String::new();
    let mut pos: usize = 0;
    let mut i: usize = 0;
    assert(sql@.skip(0) == sql@);
    assert(values.skip(0) == values);
    while i < v.len()
        invariant
            v@ == sql@,
            values == positional.deep_view(),
            names == named_values(pair_views(named@)),
            i <= v@.len(),
            pos <= positional@.len(),
            out@ + substituted(sql@.skip(i as int), values.skip(pos as int), names) == substituted(
                sql@,
                values,
                names,
            ),
        decreases v@.len() - i,
    {
        let c = v[i];
        let ghost rest = sql@.skip(i as int);
        let ghost left = values.skip(pos as int);
        let ghost done = out@;
        assert(rest[0] == c);
        assert(rest.skip(1) == sql@.skip(i + 1));
        if c == '\'' {
            let end = literal_end(&v, i + 1);
            assert(rest.skip(end - i) == sql@.skip(end as int));
            assert(rest.take(end - i) == v@.subrange(i as int, end as int));
            out.append(string_of(&v, i, end).as_str());
            i = end;
        } else if c == '?' && pos < positional.len() {
            assert(left[0] == positional@[pos as int]@);
            assert(left.skip(1) == values.skip(pos + 1));
            out.append(positional[pos].as_str());
            pos += 1;
            i += 1;
        } else if c == ':' {
            let end = name_end(&v, i + 1);
            let name = string_of(&v, i + 1, end);
            assert(name@ == rest.subrange(1, end - i));
            assert(rest.skip(end - i) == sql@.skip(end as int));
            match lookup(named, name.as_str()) {
                Some(value) if end > i + 1 => {
                    out.append(value.as_str());
                },
                _ => {
                    assert(rest.take(end - i) == v@.subrange(i as int, end as int));
                    out.append(string_of(&v, i, end).as_str());
                },
            }
            i = end;
        } else {
            assert(rest.take(1) == seq![c]);
            out.push(c);
            i += 1;
        }
        assert(out@ + substituted(sql@.skip(i as int), values.skip(pos as int), names) == done
            + substituted(rest, left, names));
    }
    assert(sql@.skip(i as int) == Seq::<char>::empty());
    assert(out@ == substituted(sql@, values, names));
    out
}

/// Without bound values the statement is left as it is.
pub proof fn law_no_values_no_change(sql: Seq<char>)
    ensures
        substituted(sql, seq![], Map::empty()) == sql,
    decreases sql.len(),
{
    if sql.len() > 0 {
        let n: int = if sql[0] == '\'' {
            1 + literal_rest_len(sql.skip(1)) as int
        } else if sql[0] == ':' {
            1 + name_len(sql.skip(1)) as int
        } else {
            1
        };
        lemma_literal_rest_len(sql.skip(1));
        lemma_name_len(sql.skip(1));
        law_no_values_no_change(sql.skip(n));
        assert(sql.take(n) + sql.skip(n) == sql);
    }
}

/// Whether `s` holds neither a placeholder nor a quote.
pub open spec fn is_plain(s: Seq<char>) -> bool {
    forall|i: int|
        0 <= i < s.len() ==> {
            let c = #[trigger] s[i];
            c != '\'' && c != '?' && c != ':'
        }
}

/// Text without placeholders and quotes stays as it is.
pub proof fn law_plain_text_stays(
    plain: Seq<char>,
    rest: Seq<char>,
    positional: Seq<Seq<char>>,
    named: Map<Seq<char>, Seq<char>>,
)
    requires
        is_plain(plain),
    ensures
        substituted(plain + rest, positional, named) == plain + substituted(
            rest,
            positional,
            named,
        ),
    decreases plain.len(),
{
    if plain.len() == 0 {
        assert(plain + rest == rest);
    } else {
        let sql = plain + rest;
        assert(sql[0] == plain[0]);
        assert(sql.skip(1) == plain.skip(1) + rest);
        assert(sql.take(1) == plain.take(1));
        law_plain_text_stays(plain.skip(1), rest, positional, named);
        assert(plain == plain.take(1) + plain.skip(1));
    }
}

/// `s` with each quote doubled.
pub open spec fn doubled(s: Seq<char>) -> Seq<char> {
    rewritten(s, |c: char| doubled_char(c))
}

/// How one character stands in a string literal.
pub open spec fn doubled_char(c: char) -> Seq<char> {
    if c == '\'' {
        seq!['\'', '\'']
    } else {
        seq![c]
    }
}

/// The string literal that stands for `s`.
pub open spec fn string_literal(s: Seq<char>) -> Seq<char> {
    seq!['\''] + doubled(s) + seq!['\'']
}

/// A string literal ends with its own closing quote, whatever it holds.
pub proof fn law_literal_is_closed(s: Seq<char>, rest: Seq<char>)
    requires
        rest.len() > 0 ==> rest[0] != '\'',
    ensures
        literal_rest_len((string_literal(s) + rest).skip(1)) == string_literal(s).len() - 1,
    decreases s.len(),
{
    let code = |c: char| doubled_char(c);
    let tail = (string_literal(s) + rest).skip(1);
    assert(tail == doubled(s) + seq!['\''] + rest);
    if s.len() > 0 {
        lemma_rewritten_first(s, code);
        law_literal_is_closed(s.skip(1), rest);
        let next = (string_literal(s.skip(1)) + rest).skip(1);
        assert(next == doubled(s.skip(1)) + seq!['\''] + rest);
        assert(tail == doubled_char(s[0]) + next);
        if s[0] == '\'' {
            assert(tail.skip(2) == next);
        } else {
            assert(tail.skip(1) == next);
        }
    } else {
        assert(doubled(s) == Seq::<char>::empty());
        assert(tail == seq!['\''] + rest);
        assert(tail.len() > 1 ==> tail[1] == rest[0]);
    }
}

/// A string literal is copied untouched, placeholders in it included.
pub proof fn law_literal_stays(
    s: Seq<char>,
    rest: Seq<char>,
    positional: Seq<Seq<char>>,
    named: Map<Seq<char>, Seq<char>>,
)
    requires
        rest.len() > 0 ==> rest[0] != '\'',
    ensures
        substituted(string_literal(s) + rest, positional, named) == string_literal(s)
            + substituted(rest, positional, named),
{
    law_literal_is_closed(s, rest);
    let sql = string_literal(s) + rest;
    let n = string_literal(s).len() as int;
    assert(sql.take(n) == string_literal(s));
    assert(sql.skip(n) == rest);
}

/// Positional placeholders take the values in order, one each; those without
/// a value stay.
pub proof fn law_positional_in_order(
    rest: Seq<char>,
    positional: Seq<Seq<char>>,
    named: Map<Seq<char>, Seq<char>>,
)
    ensures
        positional.len() > 0 ==> substituted(seq!['?'] + rest, positional, named) == positional[0]
            + substituted(rest, positional.skip(1), named),
        positional.len() == 0 ==> substituted(seq!['?'] + rest, positional, named) == seq!['?']
            + substituted(rest, positional, named),
{
    let sql = seq!['?'] + rest;
    assert(sql.skip(1) == rest);
    assert(sql.take(1) == seq!['?']);
}

/// A named placeholder takes the value of its whole name; one without a value
/// stays.
pub proof fn law_named_by_whole_name(
    name: Seq<char>,
    rest: Seq<char>,
    positional: Seq<Seq<char>>,
    named: Map<Seq<char>, Seq<char>>,
)
    requires
        name.len() > 0,
        forall|i: int| 0 <= i < name.len() ==> is_name_char(#[trigger] name[i]),
        rest.len() > 0 ==> !is_name_char(rest[0]),
    ensures
        substituted(seq![':'] + name + rest, positional, named) == (if named.contains_key(name) {
            named[name]
        } else {
            seq![':'] + name
        }) + substituted(rest, positional, named),
{
    let sql = seq![':'] + name + rest;
    let n = 1 + name.len() as int;
    assert(sql.skip(1) == name + rest);
    lemma_name_len_exact(name, rest);
    assert(sql.subrange(1, n) == name);
    assert(sql.take(n) == seq![':'] + name);
    assert(sql.skip(n) == rest);
}

proof fn lemma_name_len_exact(name: Seq<char>, rest: Seq<char>)
    requires
        forall|i: int| 0 <= i < name.len() ==> is_name_char(#[trigger] name[i]),
        rest.len() > 0 ==> !is_name_char(rest[0]),
    ensures
        name_len(name + rest) == name.len(),
    decreases name.len(),
{
    let all = name + rest;
    if name.len() > 0 {
        assert(all[0] == name[0]);
        assert(all.skip(1) == name.skip(1) + rest);
        assert forall|i: int| 0 <= i < name.skip(1).len() implies is_name_char(
            #[trigger] name.skip(1)[i],
        ) by {
            assert(name.skip(1)[i] == name[i + 1]);
        }
        lemma_name_len_exact(name.skip(1), rest);
    } else {
        assert(all == rest);
    }
}

/// Cap on a bound string inside the interpolated statement, in bytes.
pub const BINDING_STR_CAP: usize = 4 * 1024;

/// Cap on a bound string among the bindings of a frame, in bytes.
pub const BINDING_JSON_CAP: usize = 1024;

/// The longest prefix of `s` that takes at most `cap` bytes with its quotes
/// doubled.
pub open spec fn longest_doubling(s: Seq<char>, cap: nat) -> Seq<char>
    decreases s.len(),
{
    if s.len() == 0 || utf8_len(doubled(s)) <= cap {
        s
    } else {
        longest_doubling(s.drop_last(), cap)
    }
}

/// `s` with each quote doubled where that takes at most `cap` bytes; else the
/// longest prefix for which it does, with each quote doubled, and a mark. No
/// pair of quotes is cut apart.
pub open spec fn bounded_doubled(s: Seq<char>, cap: nat) -> Seq<char> {
    if utf8_len(doubled(s)) <= cap {
        doubled(s)
    } else {
        doubled(longest_doubling(s, cap)) + "…[truncated]"@
    }
}

/// A bound value as an SQL literal, for display.
pub open spec fn literal_text(v: PhpValue) -> Seq<char> {
    match v {
        PhpValue::Null => "NULL"@,
        PhpValue::Bool(b) => if b {
            "1"@
        } else {
            "0"@
        },
        PhpValue::Long(n) => signed_decimal(n as int),
        PhpValue::Double(d) => d.shown@,
        PhpValue::Str(s) => seq!['\''] + bounded_doubled(s@, BINDING_STR_CAP as nat) + seq!['\''],
        _ => "'(binary)'"@,
    }
}

/// A bound value as a JSON value.
pub open spec fn binding_view(v: PhpValue) -> JsonView {
    match v {
        PhpValue::Null => JsonView::Null,
        PhpValue::Bool(b) => JsonView::Bool(b),
        PhpValue::Long(n) => JsonView::Int(n as int),
        PhpValue::Double(d) => match d.json {
            Some(n) => JsonView::Number(n@),
            None => JsonView::Null,
        },
        PhpValue::Str(s) => JsonView::Str(truncated(s@, BINDING_JSON_CAP as nat)),
        _ => JsonView::Str("(binary)"@),
    }
}

/// What a bound string is shown as: itself where it fits, and otherwise its
/// longest prefix that does, and a mark.
pub open spec fn shown_string(s: Seq<char>) -> Seq<char> {
    if utf8_len(doubled(s)) <= BINDING_STR_CAP {
        s
    } else {
        longest_doubling(s, BINDING_STR_CAP as nat) + "…[truncated]"@
    }
}

/// A bound string stands as one string literal, whatever it holds and however
/// long it is: the literal of the string that it is shown as. It ends with its
/// own closing quote.
pub proof fn law_bound_string_is_a_literal(s: String, rest: Seq<char>)
    requires
        rest.len() > 0 ==> rest[0] != '\'',
    ensures
        literal_text(PhpValue::Str(s)) == string_literal(shown_string(s@)),
        literal_rest_len(literal_text(PhpValue::Str(s)).skip(1)) == literal_text(
            PhpValue::Str(s),
        ).len() - 1,
        literal_rest_len((literal_text(PhpValue::Str(s)) + rest).skip(1)) == literal_text(
            PhpValue::Str(s),
        ).len() - 1,
{
    if utf8_len(doubled(s@)) > BINDING_STR_CAP {
        let mark = "…[truncated]"@;
        reveal_strlit("…[truncated]");
        lemma_doubled_without_quotes(mark);
        lemma_rewritten_concat(
            longest_doubling(s@, BINDING_STR_CAP as nat),
            mark,
            |c: char| doubled_char(c),
        );
    }
    let literal = literal_text(PhpValue::Str(s));
    assert(literal == string_literal(shown_string(s@)));
    law_literal_is_closed(shown_string(s@), rest);
    law_literal_is_closed(shown_string(s@), seq![]);
    assert(literal + Seq::<char>::empty() == literal);
}

proof fn lemma_doubled_without_quotes(s: Seq<char>)
    requires
        forall|i: int| 0 <= i < s.len() ==> #[trigger] s[i] != '\'',
    ensures
        doubled(s) == s,
    decreases s.len(),
{
    if s.len() > 0 {
        let front = s.drop_last();
        assert(forall|i: int| 0 <= i < front.len() ==> front[i] == s[i]);
        lemma_doubled_without_quotes(front);
        assert(s[s.len() - 1] == s.last());
        assert(front.push(s.last()) == s);
        assert(front + seq![s.last()] == s);
    }
}

/// The prefix that is kept of a bound string is the longest that fits: it takes
/// at most the cap with its quotes doubled, and one more character would not.
pub proof fn law_doubling_keeps_the_longest_prefix(s: Seq<char>, cap: nat)
    ensures
        longest_doubling(s, cap).is_prefix_of(s),
        utf8_len(doubled(longest_doubling(s, cap))) <= cap,
        longest_doubling(s, cap).len() < s.len() ==> utf8_len(
            doubled(s.take(longest_doubling(s, cap).len() as int + 1)),
        ) > cap,
    decreases s.len(),
{
    if s.len() == 0 {
        lemma_ascii_len(doubled(s));
    } else if utf8_len(doubled(s)) > cap {
        let shorter = s.drop_last();
        law_doubling_keeps_the_longest_prefix(shorter, cap);
        let k = longest_doubling(s, cap).len() as int;
        if k < shorter.len() {
            assert(s.take(k + 1) == shorter.take(k + 1));
        } else {
            assert(s.take(k + 1) == s);
        }
    }
}

proof fn lemma_doubled_push(s: Seq<char>, c: char)
    ensures
        doubled(s.push(c)) == doubled(s) + doubled_char(c),
        utf8_len(doubled(s.push(c))) == utf8_len(doubled(s)) + utf8_len(doubled_char(c)),
        utf8_len(doubled_char(c)) == (if c == '\'' {
            2
        } else {
            char_width(c)
        }),
{
    assert(s.push(c).drop_last() == s);
    lemma_utf8_concat(doubled(s), doubled_char(c));
    if c == '\'' {
        lemma_ascii_len(doubled_char(c));
    } else {
        lemma_utf8_len_push(seq![], c);
        assert(Seq::<char>::empty().push(c) == seq![c]);
        lemma_ascii_len(seq![]);
    }
}

proof fn lemma_longest_doubling_is_take(s: Seq<char>, cap: nat, i: int)
    requires
        0 <= i < s.len(),
        utf8_len(doubled(s.take(i))) <= cap,
        utf8_len(doubled(s.take(i + 1))) > cap,
    ensures
        utf8_len(doubled(s)) > cap,
        longest_doubling(s, cap) == s.take(i),
    decreases s.len(),
{
    let shorter = s.drop_last();
    assert(shorter.push(s.last()) == s);
    assert(shorter.take(i) == s.take(i));
    if i < shorter.len() {
        assert(shorter.take(i + 1) == s.take(i + 1));
        lemma_longest_doubling_is_take(shorter, cap, i);
        lemma_doubled_push(shorter, s.last());
    } else {
        assert(s.take(i + 1) == s);
        assert(s.take(i) == shorter);
        assert(longest_doubling(shorter, cap) == shorter);
    }
}

/// `s` with each quote doubled, cut to fit `cap` bytes between two characters of
/// `s`.
fn double_quotes(s: &str, cap: usize) -> (r: String)
    ensures
        r@ == bounded_doubled(s@, cap as nat),
{
    let v = chars_of(s);
    let mut out = String::new();
    let mut used: usize = 0;
    let mut i: usize = 0;
    proof {
        assert(doubled(v@.take(0)) == Seq::<char>::empty());
        lemma_ascii_len(doubled(v@.take(0)));
    }
    while i < v.len()
        invariant
            v@ == s@,
            i <= v@.len(),
            used <= cap,
            used == utf8_len(doubled(v@.take(i as int))),
            out@ == doubled(v@.take(i as int)),
        decreases v@.len() - i,
    {
        let c = v[i];
        proof {
            assert(v@.take(i as int).push(c) == v@.take(i + 1));
            lemma_doubled_push(v@.take(i as int), c);
        }
        let w: usize = if c == '\'' {
            2
        } else {
            width_of(c)
        };
        if w > cap - used {
            proof {
                lemma_longest_doubling_is_take(v@, cap as nat, i as int);
            }
            out.append("…[truncated]");
            return out;
        }
        if c == '\'' {
            out.push('\'');
        }
        out.push(c);
        used += w;
        assert(out@ == doubled(v@.take(i + 1)));
        i += 1;
    }
    assert(v@.take(v@.len() as int) == v@);
    out
}

/// Renders a bound value as an SQL literal for display: quoted, escaped and
/// bounded.
pub fn sql_literal(v: &PhpValue) -> (r: String)
    ensures
        r@ == literal_text(*v),
{
    match v {
        PhpValue::Null => "NULL".to_owned(),
        PhpValue::Bool(b) => if *b {
            "1".to_owned()
        } else {
            "0".to_owned()
        },
        PhpValue::Long(n) => decimal_i64(*n),
        PhpValue::Double(d) => d.shown.clone(),
        PhpValue::Str(s) => {
            let mut r = String::new();
            r.push('\'');
            r.append(double_quotes(s.as_str(), BINDING_STR_CAP).as_str());
            r.push('\'');
            assert(r@ == literal_text(*v));
            r
        },
        _ => "'(binary)'".to_owned(),
    }
}

/// Renders a bound value as a JSON value, bounded.
pub fn binding_value(v: &PhpValue) -> (r: Json)
    ensures
        r@ == binding_view(*v),
{
    match v {
        PhpValue::Null => Json::Null,
        PhpValue::Bool(b) => Json::Bool(*b),
        PhpValue::Long(n) => Json::Int(*n),
        PhpValue::Double(d) => match &d.json {
            Some(n) => Json::Number(n.duplicate()),
            None => Json::Null,
        },
        PhpValue::Str(s) => Json::Str(truncate(s.as_str(), BINDING_JSON_CAP)),
        _ => Json::text("(binary)"),
    }
}

/// `c` in upper case, where it is an ASCII letter.
pub open spec fn ascii_upper(c: char) -> char {
    if 'a' <= c && c <= 'z' {
        (c as u32 - 32) as char
    } else {
        c
    }
}

/// How many white-space characters `s` begins with.
pub open spec fn blank_len(s: Seq<char>) -> nat
    decreases s.len(),
{
    if s.len() > 0 && is_blank(s[0]) {
        1 + blank_len(s.skip(1))
    } else {
        0
    }
}

/// How many characters `s` begins with that are not white space.
pub open spec fn word_len(s: Seq<char>) -> nat
    decreases s.len(),
{
    if s.len() > 0 && !is_blank(s[0]) {
        1 + word_len(s.skip(1))
    } else {
        0
    }
}

/// The first word of `s`, between white space.
pub open spec fn first_word(s: Seq<char>) -> Seq<char> {
    let trimmed = s.skip(blank_len(s) as int);
    trimmed.take(word_len(trimmed) as int)
}

/// Whether `s` begins with the keyword of a statement that reads, in upper or
/// lower case.
pub open spec fn reads(s: Seq<char>) -> bool {
    let keyword = first_word(s).map_values(|c: char| ascii_upper(c));
    keyword == "SELECT"@ || keyword == "SHOW"@ || keyword == "WITH"@ || keyword == "PRAGMA"@
        || keyword == "EXPLAIN"@ || keyword == "DESCRIBE"@ || keyword == "DESC"@
}

proof fn lemma_case_of_blanks(c: char, d: char)
    requires
        ascii_upper(c) == ascii_upper(d),
    ensures
        is_blank(c) == is_blank(d),
{
}

proof fn lemma_case_of_lengths(a: Seq<char>, b: Seq<char>)
    requires
        a.map_values(|c: char| ascii_upper(c)) == b.map_values(|c: char| ascii_upper(c)),
    ensures
        blank_len(a) == blank_len(b),
        word_len(a) == word_len(b),
    decreases a.len(),
{
    let upper = |c: char| ascii_upper(c);
    assert(a.len() == a.map_values(upper).len());
    assert(b.len() == b.map_values(upper).len());
    if a.len() > 0 {
        assert(a.map_values(upper)[0] == ascii_upper(a[0]));
        assert(b.map_values(upper)[0] == ascii_upper(b[0]));
        lemma_case_of_blanks(a[0], b[0]);
        assert(a.skip(1).map_values(upper) == a.map_values(upper).skip(1));
        assert(b.skip(1).map_values(upper) == b.map_values(upper).skip(1));
        lemma_case_of_lengths(a.skip(1), b.skip(1));
    }
}

/// The case of its letters does not change whether a statement reads.
pub proof fn law_case_does_not_matter(a: Seq<char>, b: Seq<char>)
    requires
        a.map_values(|c: char| ascii_upper(c)) == b.map_values(|c: char| ascii_upper(c)),
    ensures
        reads(a) == reads(b),
{
    let upper = |c: char| ascii_upper(c);
    lemma_case_of_lengths(a, b);
    lemma_blank_len(a);
    lemma_blank_len(b);
    let n = blank_len(a) as int;
    let x = a.skip(n);
    let y = b.skip(n);
    assert(x.map_values(upper) == a.map_values(upper).skip(n));
    assert(y.map_values(upper) == b.map_values(upper).skip(n));
    lemma_case_of_lengths(x, y);
    lemma_word_len(x);
    lemma_word_len(y);
    let w = word_len(x) as int;
    assert(x.take(w).map_values(upper) == x.map_values(upper).take(w));
    assert(y.take(w).map_values(upper) == y.map_values(upper).take(w));
}

/// White space before a statement does not change whether it reads.
pub proof fn law_leading_blanks_do_not_matter(blanks: Seq<char>, sql: Seq<char>)
    requires
        forall|i: int| 0 <= i < blanks.len() ==> is_blank(#[trigger] blanks[i]),
    ensures
        reads(blanks + sql) == reads(sql),
    decreases blanks.len(),
{
    let all = blanks + sql;
    if blanks.len() > 0 {
        let fewer = blanks.skip(1);
        assert(all[0] == blanks[0]);
        assert(all.skip(1) == fewer + sql);
        assert forall|i: int| 0 <= i < fewer.len() implies is_blank(#[trigger] fewer[i]) by {
            assert(fewer[i] == blanks[i + 1]);
        }
        law_leading_blanks_do_not_matter(fewer, sql);
        lemma_blank_len(fewer + sql);
        assert(all.skip(blank_len(all) as int) == (fewer + sql).skip(
            blank_len(fewer + sql) as int,
        ));
    } else {
        assert(all == sql);
    }
}

proof fn lemma_blank_len(s: Seq<char>)
    ensures
        blank_len(s) <= s.len(),
    decreases s.len(),
{
    if s.len() > 0 {
        lemma_blank_len(s.skip(1));
    }
}

proof fn lemma_word_len(s: Seq<char>)
    ensures
        word_len(s) <= s.len(),
    decreases s.len(),
{
    if s.len() > 0 {
        lemma_word_len(s.skip(1));
    }
}

/// The first word of `sql`, its ASCII letters in upper case.
fn keyword_of(sql: &str) -> (word: String)
    ensures
        word@ == first_word(sql@).map_values(|c: char| ascii_upper(c)),
{
    let v = chars_of(sql);
    let mut i: usize = 0;
    assert(v@.skip(0) == v@);
    while i < v.len() && v[i].is_whitespace()
        invariant
            i <= v@.len(),
            i + blank_len(v@.skip(i as int)) == blank_len(v@),
        decreases v@.len() - i,
    {
        assert(v@.skip(i as int)[0] == v@[i as int]);
        assert(v@.skip(i as int).skip(1) == v@.skip(i + 1));
        i += 1;
    }
    assert(i < v@.len() ==> v@.skip(i as int)[0] == v@[i as int]);
    let start: usize = i;
    let ghost trimmed = v@.skip(start as int);
    let mut word = String::new();
    while i < v.len() && !v[i].is_whitespace()
        invariant
            start <= i <= v@.len(),
            trimmed == v@.skip(start as int),
            i - start + word_len(v@.skip(i as int)) == word_len(trimmed),
            word@ == trimmed.take(i - start).map_values(|c: char| ascii_upper(c)),
        decreases v@.len() - i,
    {
        let c = v[i];
        assert(v@.skip(i as int)[0] == c);
        assert(v@.skip(i as int).skip(1) == v@.skip(i + 1));
        assert(trimmed.take(i + 1 - start) == trimmed.take(i - start).push(c));
        let upper = if 'a' <= c && c <= 'z' {
            (c as u8 - 32) as char
        } else {
            c
        };
        assert(upper == ascii_upper(c));
        word.push(upper);
        assert(word@ == trimmed.take(i + 1 - start).map_values(|c: char| ascii_upper(c)));
        i += 1;
    }
    assert(i < v@.len() ==> v@.skip(i as int)[0] == v@[i as int]);
    word
}

/// Whether a statement reads. The row count of a read comes from its fetch;
/// the driver's count is of affected rows.
pub fn is_read(sql: &str) -> (r: bool)
    ensures
        r == reads(sql@),
{
    let word = keyword_of(sql);
    let k = word.as_str();
    str_eq(k, "SELECT") || str_eq(k, "SHOW") || str_eq(k, "WITH") || str_eq(k, "PRAGMA")
        || str_eq(k, "EXPLAIN") || str_eq(k, "DESCRIBE") || str_eq(k, "DESC")
}

/// A named placeholder is replaced by the value of its whole name: ASCII letters
/// of either case, digits and underscores, and every other character that is
/// alphanumeric, up to the first character that is none of these. Where the name
/// has no value, and where there is no name, the text stays.
pub proof fn law_names_are_letters_digits_and_underscores(
    name: Seq<char>,
    rest: Seq<char>,
    positional: Seq<Seq<char>>,
    named: Map<Seq<char>, Seq<char>>,
)
    requires
        forall|i: int|
            0 <= i < name.len() ==> {
                let c = #[trigger] name[i];
                ||| 'A' <= c && c <= 'Z'
                ||| 'a' <= c && c <= 'z'
                ||| '0' <= c && c <= '9'
                ||| c == '_'
                ||| c as u32 >= 128 && alphanumeric(c)
            },
        rest.len() > 0 ==> {
            let c = rest[0];
            &&& !('A' <= c && c <= 'Z')
            &&& !('a' <= c && c <= 'z')
            &&& !('0' <= c && c <= '9')
            &&& c != '_'
            &&& c as u32 >= 128 ==> !alphanumeric(c)
        },
    ensures
        name.len() > 0 && named.contains_key(name) ==> substituted(
            seq![':'] + name + rest,
            positional,
            named,
        ) == named[name] + substituted(rest, positional, named),
        name.len() == 0 || !named.contains_key(name) ==> substituted(
            seq![':'] + name + rest,
            positional,
            named,
        ) == seq![':'] + name + substituted(rest, positional, named),
{
    if name.len() > 0 {
        law_named_by_whole_name(name, rest, positional, named);
    } else {
        let sql = seq![':'] + name + rest;
        assert(sql.skip(1) == rest);
        assert(name_len(rest) == 0);
        assert(sql.take(1) == seq![':'] + name);
    }
}

/// A string literal that is never closed runs to the end of the statement, and
/// an empty statement stays empty.
pub proof fn law_open_literal_stays(
    s: Seq<char>,
    positional: Seq<Seq<char>>,
    named: Map<Seq<char>, Seq<char>>,
)
    ensures
        substituted(seq!['\''] + doubled(s), positional, named) == seq!['\''] + doubled(s),
        substituted(seq![], positional, named) == Seq::<char>::empty(),
{
    let inner = doubled(s);
    let sql = seq!['\''] + inner;
    assert(sql.skip(1) == inner);
    lemma_open_rest(s);
    assert(sql.take(1 + inner.len() as int) == sql);
    assert(sql.skip(1 + inner.len() as int) == Seq::<char>::empty());
    assert(substituted(Seq::<char>::empty(), positional, named) == Seq::<char>::empty());
}

proof fn lemma_open_rest(s: Seq<char>)
    ensures
        literal_rest_len(doubled(s)) == doubled(s).len(),
    decreases s.len(),
{
    let code = |c: char| doubled_char(c);
    if s.len() > 0 {
        lemma_rewritten_first(s, code);
        lemma_open_rest(s.skip(1));
        let all = doubled(s);
        let next = doubled(s.skip(1));
        assert(all == doubled_char(s[0]) + next);
        if s[0] == '\'' {
            assert(all.skip(2) == next);
        } else {
            assert(all.skip(1) == next);
        }
    } else {
        assert(doubled(s) == Seq::<char>::empty());
    }
}

/// Quotes are doubled and nothing else is changed.
pub proof fn law_quotes_are_doubled(a: Seq<char>, b: Seq<char>, plain: Seq<char>)
    requires
        forall|i: int| 0 <= i < plain.len() ==> #[trigger] plain[i] != '\'',
    ensures
        doubled(plain) == plain,
        doubled(a + seq!['\''] + b) == doubled(a) + seq!['\'', '\''] + doubled(b),
        string_literal(a) == seq!['\''] + doubled(a) + seq!['\''],
{
    let code = |c: char| doubled_char(c);
    lemma_doubled_without_quotes(plain);
    lemma_rewritten_concat(a + seq!['\''], b, code);
    lemma_rewritten_concat(a, seq!['\''], code);
    assert(seq!['\''].drop_last() == Seq::<char>::empty());
    assert(doubled(Seq::<char>::empty()) == Seq::<char>::empty());
    assert(doubled(seq!['\'']) == doubled(Seq::<char>::empty()) + doubled_char('\''));
}

/// Of two values for one name the later stands, and a value leaves the other
/// names alone.
pub proof fn law_later_value_stands(
    named: Seq<(Seq<char>, Seq<char>)>,
    name: Seq<char>,
    value: Seq<char>,
    other: Seq<char>,
)
    ensures
        named_values(seq![]) == Map::<Seq<char>, Seq<char>>::empty(),
        named_values(named.push((name, value))).contains_key(name),
        named_values(named.push((name, value)))[name] == value,
        other != name ==> named_values(named.push((name, value))).contains_key(other)
            == named_values(named).contains_key(other),
        other != name && named_values(named).contains_key(other) ==> named_values(
            named.push((name, value)),
        )[other] == named_values(named)[other],
{
    assert(named.push((name, value)).drop_last() == named);
}

/// The literal of a value: the words of SQL for null and the booleans, numbers as
/// they are, a string that fits between quotes with its own quotes doubled, and a
/// placeholder for what has no text.
pub proof fn law_literals(b: bool, n: i64, d: Double, s: String, v: Vec<Entry>, o: Option<String>)
    ensures
        literal_text(PhpValue::Null) == "NULL"@,
        literal_text(PhpValue::Bool(b)) == (if b {
            "1"@
        } else {
            "0"@
        }),
        literal_text(PhpValue::Long(n)) == signed_decimal(n as int),
        literal_text(PhpValue::Double(d)) == d.shown@,
        utf8_len(doubled(s@)) <= 4096 ==> literal_text(PhpValue::Str(s)) == "'"@ + doubled(s@)
            + "'"@,
        literal_text(PhpValue::Array(v)) == "'(binary)'"@,
        literal_text(PhpValue::Object(o)) == "'(binary)'"@,
        literal_text(PhpValue::Other) == "'(binary)'"@,
{
    reveal_strlit("'");
    assert("'"@ == seq!['\'']);
}

/// The literal of a string that does not fit holds its characters up to the one
/// that would exceed the cap with the quotes doubled, and the mark.
pub proof fn law_long_literals(s: String, k: int)
    requires
        0 <= k < s@.len(),
        utf8_len(doubled(s@.take(k))) <= 4096,
        utf8_len(doubled(s@.take(k + 1))) > 4096,
    ensures
        literal_text(PhpValue::Str(s)) == "'"@ + doubled(s@.take(k)) + "…[truncated]"@ + "'"@,
{
    reveal_strlit("'");
    assert("'"@ == seq!['\'']);
    lemma_longest_doubling_is_take(s@, 4096, k);
    let inner = doubled(s@.take(k)) + "…[truncated]"@;
    assert(bounded_doubled(s@, 4096) == inner);
    assert(literal_text(PhpValue::Str(s)) == seq!['\''] + inner + seq!['\'']);
}

/// A bound value among the bindings is the value itself: null, a boolean, an
/// integer, a number where JSON has it, and a string up to its cap.
pub proof fn law_bindings_are_the_values(
    b: bool,
    n: i64,
    d: Double,
    s: String,
    v: Vec<Entry>,
    o: Option<String>,
)
    ensures
        binding_view(PhpValue::Null) == JsonView::Null,
        binding_view(PhpValue::Bool(b)) == JsonView::Bool(b),
        binding_view(PhpValue::Long(n)) == JsonView::Int(n as int),
        d.json is Some ==> binding_view(PhpValue::Double(d)) == JsonView::Number(d.json->0@),
        d.json is None ==> binding_view(PhpValue::Double(d)) == JsonView::Null,
        binding_view(PhpValue::Str(s)) == JsonView::Str(truncated(s@, 1024)),
        binding_view(PhpValue::Array(v)) == JsonView::Str("(binary)"@),
        binding_view(PhpValue::Object(o)) == JsonView::Str("(binary)"@),
        binding_view(PhpValue::Other) == JsonView::Str("(binary)"@),
{
}

/// Whether `c` is white space: the space, the ASCII control characters from the
/// tab to the carriage return, and what Unicode adds to these.
pub open spec fn is_white(c: char) -> bool {
    ||| c == ' '
    ||| c == '\t'
    ||| c == '\n'
    ||| c == '\r'
    ||| c as u32 == 11
    ||| c as u32 == 12
    ||| c as u32 >= 128 && whitespace(c)
}

/// Whether `word` is `keyword`, which is in upper case, in letters of any case.
pub open spec fn spells(word: Seq<char>, keyword: Seq<char>) -> bool {
    &&& word.len() == keyword.len()
    &&& forall|i: int|
        0 <= i < keyword.len() ==> (#[trigger] word[i]) as u32 == keyword[i] as u32
            || word[i] as u32 == keyword[i] as u32 + 32
}

proof fn lemma_spells(word: Seq<char>, keyword: Seq<char>)
    requires
        forall|i: int| 0 <= i < keyword.len() ==> 'A' <= #[trigger] keyword[i] && keyword[i] <= 'Z',
    ensures
        spells(word, keyword) <==> word.map_values(|c: char| ascii_upper(c)) == keyword,
{
    let upper = word.map_values(|c: char| ascii_upper(c));
    if upper == keyword {
        assert(word.len() == keyword.len());
        assert forall|i: int| 0 <= i < keyword.len() implies (#[trigger] word[i]) as u32
            == keyword[i] as u32 || word[i] as u32 == keyword[i] as u32 + 32 by {
            assert(upper[i] == ascii_upper(word[i]));
            lemma_upper(word[i], keyword[i]);
        }
    }
    if spells(word, keyword) {
        assert forall|i: int| 0 <= i < keyword.len() implies #[trigger] upper[i] == keyword[i] by {
            assert(word[i] as u32 == keyword[i] as u32 || word[i] as u32 == keyword[i] as u32 + 32);
            lemma_upper(word[i], keyword[i]);
        }
        assert(upper == keyword);
    }
}

proof fn lemma_upper(c: char, k: char)
    requires
        'A' <= k && k <= 'Z',
    ensures
        ascii_upper(c) == k <==> (c as u32 == k as u32 || c as u32 == k as u32 + 32),
{
}

proof fn lemma_white(c: char)
    ensures
        is_white(c) == is_blank(c),
{
}

proof fn lemma_first_word_of(blanks: Seq<char>, word: Seq<char>, rest: Seq<char>)
    requires
        forall|i: int| 0 <= i < blanks.len() ==> is_white(#[trigger] blanks[i]),
        forall|i: int| 0 <= i < word.len() ==> !is_white(#[trigger] word[i]),
        rest.len() > 0 ==> is_white(rest[0]) && word.len() > 0,
    ensures
        first_word(blanks + word + rest) == word,
    decreases blanks.len(),
{
    let all = blanks + word + rest;
    if blanks.len() > 0 {
        let fewer = blanks.skip(1);
        assert(all[0] == blanks[0]);
        assert(all.skip(1) == fewer + word + rest);
        assert forall|i: int| 0 <= i < fewer.len() implies is_white(#[trigger] fewer[i]) by {
            assert(fewer[i] == blanks[i + 1]);
        }
        lemma_first_word_of(fewer, word, rest);
        lemma_blank_len(all.skip(1));
        assert(is_white(blanks[0]));
        lemma_white(all[0]);
        assert(all.skip(blank_len(all) as int) == all.skip(1).skip(blank_len(all.skip(1)) as int));
    } else {
        assert(all == word + rest);
        if word.len() > 0 {
            assert(all[0] == word[0]);
            assert(!is_white(word[0]));
            lemma_white(all[0]);
        }
        assert(blank_len(all) == 0);
        assert(all.skip(0) == all);
        lemma_word_len_of(word, rest);
        assert((word + rest).take(word.len() as int) == word);
    }
}

proof fn lemma_word_len_of(word: Seq<char>, rest: Seq<char>)
    requires
        forall|i: int| 0 <= i < word.len() ==> !is_white(#[trigger] word[i]),
        rest.len() > 0 ==> is_white(rest[0]),
    ensures
        word_len(word + rest) == word.len(),
    decreases word.len(),
{
    let all = word + rest;
    if word.len() > 0 {
        let fewer = word.skip(1);
        assert(all[0] == word[0]);
        assert(!is_white(word[0]));
        lemma_white(all[0]);
        assert(all.skip(1) == fewer + rest);
        assert forall|i: int| 0 <= i < fewer.len() implies !is_white(#[trigger] fewer[i]) by {
            assert(fewer[i] == word[i + 1]);
        }
        lemma_word_len_of(fewer, rest);
    } else {
        assert(all == rest);
        if rest.len() > 0 {
            lemma_white(all[0]);
        }
    }
}

/// A statement reads where its first word, up to the next white space of any kind
/// or the end, is one of seven keywords in letters of any case, and nowhere else;
/// a statement of white space alone does not.
pub proof fn law_first_word_decides(blanks: Seq<char>, word: Seq<char>, rest: Seq<char>)
    requires
        forall|i: int| 0 <= i < blanks.len() ==> is_white(#[trigger] blanks[i]),
        forall|i: int| 0 <= i < word.len() ==> !is_white(#[trigger] word[i]),
        rest.len() > 0 ==> is_white(rest[0]) && word.len() > 0,
    ensures
        reads(blanks + word + rest) <==> {
            ||| spells(word, "SELECT"@)
            ||| spells(word, "SHOW"@)
            ||| spells(word, "WITH"@)
            ||| spells(word, "PRAGMA"@)
            ||| spells(word, "EXPLAIN"@)
            ||| spells(word, "DESCRIBE"@)
            ||| spells(word, "DESC"@)
        },
        !reads(blanks),
{
    reveal_strlit("SELECT");
    reveal_strlit("SHOW");
    reveal_strlit("WITH");
    reveal_strlit("PRAGMA");
    reveal_strlit("EXPLAIN");
    reveal_strlit("DESCRIBE");
    reveal_strlit("DESC");
    lemma_first_word_of(blanks, word, rest);
    lemma_spells(word, "SELECT"@);
    lemma_spells(word, "SHOW"@);
    lemma_spells(word, "WITH"@);
    lemma_spells(word, "PRAGMA"@);
    lemma_spells(word, "EXPLAIN"@);
    lemma_spells(word, "DESCRIBE"@);
    lemma_spells(word, "DESC"@);
    let none = Seq::<char>::empty();
    lemma_first_word_of(blanks, none, none);
    assert(blanks + none + none == blanks);
    assert(none.map_values(|c: char| ascii_upper(c)).len() == 0);
}

/// Names and values stand together, in the order in which they are given.
pub proof fn law_pairs_in_order(v: Seq<(String, String)>, i: int)
    ensures
        pair_views(v).len() == v.len(),
        0 <= i < v.len() ==> pair_views(v)[i] == (v[i].0@, v[i].1@),
{
}

} // verus!
