//! Bounded rendering of a PHP value to text and HTML for `dump` frames.
//!
//! String values, array breadth and nesting depth are all capped; array keys and
//! class names are not, and are shown whole. The text is in the manner of
//! `print_r`; the HTML is the escaped text in a `<pre>` block.

use vstd::prelude::*;
use crate::frame::{truncate, truncated};
use crate::php::{key_text, ArrayKey, Double, Entry, PhpValue};
use crate::text::{
    decimal_i64, law_decimals_differ, lemma_rewritten_concat, lemma_rewritten_injective, rewritten,
    signed_decimal, utf8_len,
};

verus! {

/// Arrays at this depth or deeper are not opened.
pub const MAX_DEPTH: usize = 4;

/// How many entries of an array are shown.
pub const MAX_ITEMS: usize = 100;

/// Cap on a string, in bytes.
pub const MAX_STR: usize = 8 * 1024;

/// The indentation of level `level`.
pub open spec fn indent(level: nat) -> Seq<char> {
    Seq::new(2 * level, |i: int| ' ')
}

/// The text of `v`, which stands `depth` arrays deep.
pub open spec fn value_text(v: PhpValue, depth: nat) -> Seq<char>
    decreases v, 0nat,
{
    match v {
        PhpValue::Null => "null"@,
        PhpValue::Bool(b) => if b {
            "true"@
        } else {
            "false"@
        },
        PhpValue::Long(n) => signed_decimal(n as int),
        PhpValue::Double(d) => d.shown@,
        PhpValue::Str(s) => seq!['"'] + truncated(s@, MAX_STR as nat) + seq!['"'],
        PhpValue::Array(entries) => if depth >= MAX_DEPTH {
            "array(…)"@
        } else {
            let shown = if entries@.len() <= MAX_ITEMS {
                entries@.len()
            } else {
                MAX_ITEMS as nat
            };
            "[\n"@ + entries_text(entries@, shown, depth) + (if entries@.len() > MAX_ITEMS {
                indent(depth + 1) + "…\n"@
            } else {
                seq![]
            }) + indent(depth) + seq![']']
        },
        PhpValue::Object(class) => (match class {
            Some(name) => name@,
            None => "object"@,
        }) + " {…}"@,
        PhpValue::Other => "(unknown)"@,
    }
}

/// The lines of the first `n` entries of an array that stands `depth` arrays
/// deep.
pub open spec fn entries_text(entries: Seq<Entry>, n: nat, depth: nat) -> Seq<char>
    decreases entries, n,
{
    if n == 0 || n > entries.len() {
        seq![]
    } else {
        let last = entries[n - 1];
        entries_text(entries, (n - 1) as nat, depth) + indent(depth + 1) + key_text(last.key)
            + " => "@ + value_text(last.value, depth + 1) + seq!['\n']
    }
}

fn push_indent(out: &mut String, level: usize)
    ensures
        final(out)@ == old(out)@ + indent(level as nat),
{
    let ghost start = out@;
    let mut k: usize = 0;
    assert(start + indent(0) == start);
    while k < level
        invariant
            k <= level,
            out@ == start + indent(k as nat),
        decreases level - k,
    {
        out.push(' ');
        out.push(' ');
        assert(out@ == start + indent(k as nat + 1));
        k += 1;
    }
}

fn render_into(v: &PhpValue, depth: usize, out: &mut String)
    requires
        depth <= MAX_DEPTH,
    ensures
        final(out)@ == old(out)@ + value_text(*v, depth as nat),
    decreases v, 0nat,
{
    match v {
        PhpValue::Null => {
            out.append("null");
        },
        PhpValue::Bool(b) => {
            if *b {
                out.append("true");
            } else {
                out.append("false");
            }
        },
        PhpValue::Long(n) => {
            out.append(decimal_i64(*n).as_str());
        },
        PhpValue::Double(d) => {
            out.append(d.shown.as_str());
        },
        PhpValue::Str(s) => {
            out.push('"');
            out.append(truncate(s.as_str(), MAX_STR).as_str());
            out.push('"');
        },
        PhpValue::Array(entries) => {
            if depth >= MAX_DEPTH {
                out.append("array(…)");
            } else {
                out.append("[\n");
                let more = entries.len() > MAX_ITEMS;
                let shown: usize = if more {
                    MAX_ITEMS
                } else {
                    entries.len()
                };
                render_entries(entries, shown, depth, out);
                if more {
                    push_indent(out, depth + 1);
                    out.append("…\n");
                }
                push_indent(out, depth);
                out.push(']');
            }
        },
        PhpValue::Object(class) => {
            match class {
                Some(name) => {
                    out.append(name.as_str());
                },
                None => {
                    out.append("object");
                },
            }
            out.append(" {…}");
        },
        PhpValue::Other => {
            out.append("(unknown)");
        },
    }
    assert(out@ == old(out)@ + value_text(*v, depth as nat));
}

fn render_entries(entries: &Vec<Entry>, n: usize, depth: usize, out: &mut String)
    requires
        depth < MAX_DEPTH,
        n <= entries@.len(),
    ensures
        final(out)@ == old(out)@ + entries_text(entries@, n as nat, depth as nat),
    decreases entries, 0nat,
{
    let ghost start = out@;
    let mut k: usize = 0;
    assert(start + entries_text(entries@, 0, depth as nat) == start);
    while k < n
        invariant
            depth < MAX_DEPTH,
            k <= n <= entries@.len(),
            out@ == start + entries_text(entries@, k as nat, depth as nat),
        decreases n - k,
    {
        push_indent(out, depth + 1);
        out.append(entries[k].key.to_text().as_str());
        out.append(" => ");
        render_into(&entries[k].value, depth + 1, out);
        out.push('\n');
        assert(out@ == start + entries_text(entries@, k as nat + 1, depth as nat));
        k += 1;
    }
}

/// How one character stands in HTML text.
pub open spec fn html_char(c: char) -> Seq<char> {
    if c == '&' {
        "&amp;"@
    } else if c == '<' {
        "&lt;"@
    } else if c == '>' {
        "&gt;"@
    } else if c == '"' {
        "&quot;"@
    } else if c == '\'' {
        "&#39;"@
    } else {
        seq![c]
    }
}

/// The characters of `s`, each as it stands in HTML text.
pub open spec fn html_text(s: Seq<char>) -> Seq<char> {
    rewritten(s, |c: char| html_char(c))
}

/// Replaces the characters that mean something in HTML.
pub fn html_escape(s: &str) -> (r: String)
    ensures
        r@ == html_text(s@),
{
    let mut out = String::new();
    for c in it: s.chars()
        invariant
            it.seq() == s@,
            out@ == html_text(s@.take(it.index() as int)),
    {
        let ghost before = s@.take(it.index() as int);
        let ghost after = s@.take(it.index() + 1);
        assert(after.drop_last() == before);
        assert(after.last() == c);
        match c {
            '&' => out.append("&amp;"),
            '<' => out.append("&lt;"),
            '>' => out.append("&gt;"),
            '"' => out.append("&quot;"),
            '\'' => out.append("&#39;"),
            _ => out.push(c),
        }
        assert(out@ == html_text(after));
    }
    assert(s@.take(s@.len() as int) == s@);
    out
}

/// Whether `c` can open or close a tag or an attribute value.
pub open spec fn is_markup(c: char) -> bool {
    c == '<' || c == '>' || c == '"' || c == '\''
}

/// Escaped text holds no character that can open or close a tag or an
/// attribute value.
pub proof fn law_html_holds_no_markup(s: Seq<char>)
    ensures
        forall|i: int| 0 <= i < html_text(s).len() ==> !is_markup(#[trigger] html_text(s)[i]),
    decreases s.len(),
{
    if s.len() > 0 {
        law_html_holds_no_markup(s.drop_last());
        lemma_reveal_entities();
        let code = html_char(s.last());
        assert(html_text(s) == html_text(s.drop_last()) + code);
        assert(forall|i: int| 0 <= i < code.len() ==> !is_markup(#[trigger] code[i]));
    }
}

/// A text can be read back from its escaped form: two texts with the same
/// escaped form are the same.
pub proof fn law_html_escape_is_injective(a: Seq<char>, b: Seq<char>)
    requires
        html_text(a) == html_text(b),
    ensures
        a == b,
{
    let code = |c: char| html_char(c);
    lemma_reveal_entities();
    assert forall|c: char, d: char| c != d implies !(#[trigger] code(c)).is_prefix_of(
        #[trigger] code(d),
    ) by {
        let x = html_char(c);
        let y = html_char(d);
        if x.is_prefix_of(y) {
            assert(x[0] == y[0]);
            assert(x.len() > 1 ==> x[1] == y[1]);
        }
    }
    lemma_rewritten_injective(a, b, code);
}

proof fn lemma_reveal_entities()
    ensures
        "&amp;"@ == seq!['&', 'a', 'm', 'p', ';'],
        "&lt;"@ == seq!['&', 'l', 't', ';'],
        "&gt;"@ == seq!['&', 'g', 't', ';'],
        "&quot;"@ == seq!['&', 'q', 'u', 'o', 't', ';'],
        "&#39;"@ == seq!['&', '#', '3', '9', ';'],
{
    reveal_strlit("&amp;");
    reveal_strlit("&lt;");
    reveal_strlit("&gt;");
    reveal_strlit("&quot;");
    reveal_strlit("&#39;");
    assert("&amp;"@ =~= seq!['&', 'a', 'm', 'p', ';']);
    assert("&lt;"@ =~= seq!['&', 'l', 't', ';']);
    assert("&gt;"@ =~= seq!['&', 'g', 't', ';']);
    assert("&quot;"@ =~= seq!['&', 'q', 'u', 'o', 't', ';']);
    assert("&#39;"@ =~= seq!['&', '#', '3', '9', ';']);
}

/// Whether `a` and `b`, both `depth` arrays deep, agree in all that the caps
/// leave to be shown: strings up to their cap, the first entries of arrays,
/// and nothing of what is nested too deep.
pub open spec fn agree_within_caps(a: PhpValue, b: PhpValue, depth: nat) -> bool
    decreases a, 0nat,
{
    match (a, b) {
        (PhpValue::Null, PhpValue::Null) => true,
        (PhpValue::Bool(x), PhpValue::Bool(y)) => x == y,
        (PhpValue::Long(x), PhpValue::Long(y)) => x == y,
        (PhpValue::Double(x), PhpValue::Double(y)) => x.shown@ == y.shown@,
        (PhpValue::Str(x), PhpValue::Str(y)) => truncated(x@, MAX_STR as nat) == truncated(
            y@,
            MAX_STR as nat,
        ),
        (PhpValue::Array(x), PhpValue::Array(y)) => depth >= MAX_DEPTH || {
            &&& x@.len() == y@.len() || (x@.len() > MAX_ITEMS && y@.len() > MAX_ITEMS)
            &&& entries_agree(x@, y@, depth)
        },
        (PhpValue::Object(x), PhpValue::Object(y)) => x.deep_view() == y.deep_view(),
        (PhpValue::Other, PhpValue::Other) => true,
        _ => false,
    }
}

/// Whether the entries that are shown of two arrays, both `depth` arrays deep,
/// agree in all that the caps leave to be shown.
pub open spec fn entries_agree(x: Seq<Entry>, y: Seq<Entry>, depth: nat) -> bool
    decreases x, 0nat,
{
    forall|i: int|
        0 <= i < x.len() && i < MAX_ITEMS ==> {
            &&& key_text((#[trigger] x[i]).key) == key_text(y[i].key)
            &&& agree_within_caps(x[i].value, y[i].value, depth + 1)
        }
}

/// Rendering depends on nothing beyond its caps: values that agree within them
/// are rendered alike, however large they are.
pub proof fn law_rendering_is_capped(a: PhpValue, b: PhpValue, depth: nat)
    requires
        agree_within_caps(a, b, depth),
    ensures
        value_text(a, depth) == value_text(b, depth),
    decreases a, 0nat,
{
    match (a, b) {
        (PhpValue::Array(x), PhpValue::Array(y)) => {
            if depth < MAX_DEPTH {
                let shown = if x@.len() <= MAX_ITEMS {
                    x@.len()
                } else {
                    MAX_ITEMS as nat
                };
                lemma_entries_capped(x@, y@, shown, depth);
            }
        },
        _ => {},
    }
}

proof fn lemma_entries_capped(x: Seq<Entry>, y: Seq<Entry>, n: nat, depth: nat)
    requires
        n <= x.len(),
        n <= y.len(),
        n <= MAX_ITEMS,
        entries_agree(x, y, depth),
    ensures
        entries_text(x, n, depth) == entries_text(y, n, depth),
    decreases x, n,
{
    if n > 0 {
        lemma_entries_capped(x, y, (n - 1) as nat, depth);
        assert(key_text(x[n - 1].key) == key_text(y[n - 1].key));
        law_rendering_is_capped(x[n - 1].value, y[n - 1].value, depth + 1);
    }
}

/// Renders a value to its HTML and its text.
pub fn render(v: &PhpValue) -> (r: (String, String))
    ensures
        r.0@ == "<pre>"@ + html_text(value_text(*v, 0)) + "</pre>"@,
        r.1@ == value_text(*v, 0),
{
    let mut text = String::new();
    render_into(v, 0, &mut text);
    assert(text@ == value_text(*v, 0));
    let mut html = String::new();
    html.append("<pre>");
    html.append(html_escape(text.as_str()).as_str());
    html.append("</pre>");
    assert(html@ == "<pre>"@ + html_text(value_text(*v, 0)) + "</pre>"@);
    (html, text)
}

/// The text of a value that is no array is the same at every depth: the words of
/// PHP, the decimal text of an integer, a number as it is shown, a string between
/// quotes, an object by its class.
pub proof fn law_text_of_scalars(n: i64, d: Double, s: String, class: String, depth: nat)
    ensures
        value_text(PhpValue::Null, depth) == "null"@,
        value_text(PhpValue::Bool(true), depth) == "true"@,
        value_text(PhpValue::Bool(false), depth) == "false"@,
        value_text(PhpValue::Long(n), depth) == signed_decimal(n as int),
        value_text(PhpValue::Double(d), depth) == d.shown@,
        value_text(PhpValue::Str(s), depth) == "\""@ + truncated(s@, 8192) + "\""@,
        value_text(PhpValue::Object(Some(class)), depth) == class@ + " {…}"@,
        value_text(PhpValue::Object(None), depth) == "object {…}"@,
        value_text(PhpValue::Other, depth) == "(unknown)"@,
{
    reveal_strlit("\"");
    reveal_strlit("object");
    reveal_strlit(" {…}");
    reveal_strlit("object {…}");
    assert("\""@ == seq!['"']);
    assert("object"@ + " {…}"@ == "object {…}"@);
}

/// Values of one kind that differ are rendered differently, wherever they stand:
/// booleans, integers, and strings that are not cut.
pub proof fn law_values_are_told_apart(
    p: bool,
    q: bool,
    m: i64,
    n: i64,
    s: String,
    t: String,
    depth: nat,
    other: nat,
)
    ensures
        p != q ==> value_text(PhpValue::Bool(p), depth) != value_text(PhpValue::Bool(q), other),
        m != n ==> value_text(PhpValue::Long(m), depth) != value_text(PhpValue::Long(n), other),
        s@ != t@ && utf8_len(s@) <= 8192 && utf8_len(t@) <= 8192 ==> value_text(
            PhpValue::Str(s),
            depth,
        ) != value_text(PhpValue::Str(t), other),
{
    reveal_strlit("true");
    reveal_strlit("false");
    assert("true"@.len() != "false"@.len());
    if signed_decimal(m as int) == signed_decimal(n as int) {
        law_decimals_differ(m as int, n as int);
    }
    let x = seq!['"'] + s@ + seq!['"'];
    let y = seq!['"'] + t@ + seq!['"'];
    assert(x.subrange(1, x.len() - 1) == s@);
    assert(y.subrange(1, y.len() - 1) == t@);
}

proof fn lemma_entries_alike(x: Seq<Entry>, y: Seq<Entry>, n: nat, depth: nat)
    requires
        n <= x.len(),
        n <= y.len(),
        forall|i: int| 0 <= i < n ==> x[i] == y[i],
    ensures
        entries_text(x, n, depth) == entries_text(y, n, depth),
    decreases n,
{
    if n > 0 {
        lemma_entries_alike(x, y, (n - 1) as nat, depth);
        assert(x[n - 1] == y[n - 1]);
    }
}

proof fn lemma_body(text: Seq<char>, x: Seq<char>, y: Seq<char>, close: Seq<char>)
    requires
        text == x + close,
        text == y + close,
    ensures
        x == y,
{
    let n = text.len() - close.len();
    assert(text.take(n) == x);
    assert(text.take(n) == y);
}

/// An array is its entries, one to a line, each with its key, an arrow and its
/// value one level deeper, indented by two blanks for each level. One more entry
/// is one more line before the closing bracket.
pub proof fn law_text_of_arrays(
    v: Vec<Entry>,
    longer: Vec<Entry>,
    depth: nat,
    body: Seq<char>,
)
    requires
        depth < 4,
        v@.len() < 100,
        longer@.len() == v@.len() + 1,
        forall|i: int| 0 <= i < v@.len() ==> #[trigger] longer@[i] == v@[i],
        value_text(PhpValue::Array(v), depth) == body + Seq::new(2 * depth, |i: int| ' ') + "]"@,
    ensures
        v@.len() == 0 ==> body == "[\n"@,
        value_text(PhpValue::Array(longer), depth) == body + Seq::new(
            2 * depth + 2,
            |i: int| ' ',
        ) + (match longer@.last().key {
            ArrayKey::Int(n) => signed_decimal(n as int),
            ArrayKey::Str(s) => s@,
        }) + " => "@ + value_text(longer@.last().value, depth + 1) + "\n"@ + Seq::new(
            2 * depth,
            |i: int| ' ',
        ) + "]"@,
{
    reveal_strlit("]");
    reveal_strlit("\n");
    assert(seq![']'] == "]"@);
    assert(seq!['\n'] == "\n"@);
    let n = v@.len();
    let close = indent(depth) + seq![']'];
    let opened = "[\n"@ + entries_text(v@, n, depth);
    assert(indent(depth) == Seq::new(2 * depth, |i: int| ' '));
    assert(indent(depth + 1) == Seq::new(2 * depth + 2, |i: int| ' '));
    assert(value_text(PhpValue::Array(v), depth) == opened + close);
    assert(value_text(PhpValue::Array(v), depth) == body + close);
    lemma_body(value_text(PhpValue::Array(v), depth), opened, body, close);
    lemma_entries_alike(v@, longer@, n, depth);
    let last = longer@.last();
    let line = indent(depth + 1) + key_text(last.key) + " => "@ + value_text(
        last.value,
        depth + 1,
    ) + seq!['\n'];
    assert(entries_text(longer@, n + 1, depth) == entries_text(v@, n, depth) + line);
    assert(value_text(PhpValue::Array(longer), depth) == "[\n"@ + entries_text(
        longer@,
        n + 1,
        depth,
    ) + close);
    assert(value_text(PhpValue::Array(longer), depth) == body + line + close);
    if n == 0 {
        assert(opened == "[\n"@);
    }
}

/// The caps of an array: a hundred entries are shown and a mark stands for the
/// others; an array within four others is not opened.
pub proof fn law_caps_of_arrays(v: Vec<Entry>, longer: Vec<Entry>, depth: nat, body: Seq<char>)
    requires
        v@.len() == 100,
        longer@.len() > 100,
        forall|i: int| 0 <= i < 100 ==> #[trigger] longer@[i] == v@[i],
        depth < 4 ==> value_text(PhpValue::Array(v), depth) == body + Seq::new(
            2 * depth,
            |i: int| ' ',
        ) + "]"@,
    ensures
        depth < 4 ==> value_text(PhpValue::Array(longer), depth) == body + Seq::new(
            2 * depth + 2,
            |i: int| ' ',
        ) + "…\n"@ + Seq::new(2 * depth, |i: int| ' ') + "]"@,
        depth >= 4 ==> value_text(PhpValue::Array(v), depth) == "array(…)"@,
        depth >= 4 ==> value_text(PhpValue::Array(longer), depth) == "array(…)"@,
{
    if depth < 4 {
        reveal_strlit("]");
        assert(seq![']'] == "]"@);
        let close = indent(depth) + seq![']'];
        let opened = "[\n"@ + entries_text(v@, 100, depth);
        assert(indent(depth) == Seq::new(2 * depth, |i: int| ' '));
        assert(indent(depth + 1) == Seq::new(2 * depth + 2, |i: int| ' '));
        assert(value_text(PhpValue::Array(v), depth) == opened + close);
        assert(value_text(PhpValue::Array(v), depth) == body + close);
        lemma_body(value_text(PhpValue::Array(v), depth), opened, body, close);
        lemma_entries_alike(v@, longer@, 100, depth);
        assert(value_text(PhpValue::Array(longer), depth) == opened + (indent(depth + 1) + "…\n"@)
            + close);
    }
}

/// An array that is not opened is not opened whatever it holds, and one without
/// entries is two brackets on two lines.
pub proof fn law_closed_and_empty_arrays(v: Vec<Entry>, depth: nat)
    ensures
        depth >= 4 ==> value_text(PhpValue::Array(v), depth) == "array(…)"@,
        depth < 4 && v@.len() == 0 ==> value_text(PhpValue::Array(v), depth) == "[\n"@ + Seq::new(
            2 * depth,
            |i: int| ' ',
        ) + "]"@,
{
    reveal_strlit("]");
    assert(seq![']'] == "]"@);
    assert(indent(depth) == Seq::new(2 * depth, |i: int| ' '));
    if depth < 4 && v@.len() == 0 {
        assert(value_text(PhpValue::Array(v), depth) == "[\n"@ + indent(depth) + seq![']']);
    }
}

/// Text is escaped character by character: five characters have names, and
/// every other character stands for itself.
pub proof fn law_html_by_character(a: Seq<char>, b: Seq<char>, c: char)
    ensures
        html_text(seq![]) == Seq::<char>::empty(),
        html_text(a + b) == html_text(a) + html_text(b),
        html_text(seq!['&']) == "&amp;"@,
        html_text(seq!['<']) == "&lt;"@,
        html_text(seq!['>']) == "&gt;"@,
        html_text(seq!['"']) == "&quot;"@,
        html_text(seq!['\'']) == "&#39;"@,
        c != '&' && c != '<' && c != '>' && c != '"' && c != '\'' ==> html_text(seq![c]) == seq![c],
{
    lemma_rewritten_concat(a, b, |x: char| html_char(x));
    lemma_html_of_one('&');
    lemma_html_of_one('<');
    lemma_html_of_one('>');
    lemma_html_of_one('"');
    lemma_html_of_one('\'');
    lemma_html_of_one(c);
}

proof fn lemma_html_of_one(c: char)
    ensures
        html_text(seq![c]) == html_char(c),
{
    assert(seq![c].drop_last() == Seq::<char>::empty());
    assert(html_text(Seq::<char>::empty()) == Seq::<char>::empty());
    assert(html_text(seq![c]) == html_text(Seq::<char>::empty()) + html_char(c));
}

} // verus!
