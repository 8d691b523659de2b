//! Escaping of quote text for HTML and for JavaScript string literals,
//! and the reader of such literals.
use vstd::prelude::*;
use crate::text::{chars_of, hex_char, hex_digit, push_char, trim, trim_end, trim_start, trim_string};

verus! {

// ---------------------------------------------------------------------------
// HTML escaping
// ---------------------------------------------------------------------------

/// What one character becomes in escaped HTML text.
pub open spec fn html_escape_char(c: char) -> Seq<char> {
    if c == '&' {
        "&amp;"@
    } else if c == '<' {
        "&lt;"@
    } else if c == '>' {
        "&gt;"@
    } else if c == '"' {
        "&quot;"@
    } else if c == '\n' {
        "<br>"@
    } else {
        seq![c]
    }
}

/// `s` with each character escaped for HTML text.
pub open spec fn html_escaped(s: Seq<char>) -> Seq<char>
    decreases s.len(),
{
    if s.len() == 0 {
        Seq::empty()
    } else {
        html_escaped(s.drop_last()) + html_escape_char(s.last())
    }
}

/// A character that would open or close markup or an attribute value.
pub open spec fn is_markup_char(c: char) -> bool {
    c == '<' || c == '>' || c == '"'
}

proof fn lemma_html_escape_char_plain(c: char)
    requires
        c != '\n',
    ensures
        forall|i: int|
            0 <= i < html_escape_char(c).len() ==> !is_markup_char(#[trigger] html_escape_char(c)[i]),
{
    reveal_strlit("&amp;");
    reveal_strlit("&lt;");
    reveal_strlit("&gt;");
    reveal_strlit("&quot;");
}

/// Escaped text holds no `<`, `>` or `"` unless the text had a line break
/// (which becomes `<br>`): text without line breaks cannot open markup.
pub proof fn lemma_html_escaped_has_no_markup(s: Seq<char>)
    requires
        forall|i: int| 0 <= i < s.len() ==> #[trigger] s[i] != '\n',
    ensures
        forall|i: int| 0 <= i < html_escaped(s).len() ==> !is_markup_char(#[trigger] html_escaped(s)[i]),
    decreases s.len(),
{
    if s.len() > 0 {
        let d = s.drop_last();
        assert forall|i: int| 0 <= i < d.len() implies #[trigger] d[i] != '\n' by {
            assert(d[i] == s[i]);
        }
        lemma_html_escaped_has_no_markup(d);
        assert(s[s.len() - 1] != '\n');
        lemma_html_escape_char_plain(s.last());
        let a = html_escaped(d);
        let b = html_escape_char(s.last());
        assert forall|i: int| 0 <= i < (a + b).len() implies !is_markup_char(#[trigger] (a + b)[i]) by {
            if i < a.len() {
                assert((a + b)[i] == a[i]);
            } else {
                assert((a + b)[i] == b[i - a.len()]);
            }
        }
    }
}

/// `t` begins with `p`.
pub open spec fn begins_with(t: Seq<char>, p: Seq<char>) -> bool {
    p.len() <= t.len() && forall|i: int| 0 <= i < p.len() ==> #[trigger] t[i] == p[i]
}

/// How a browser reads escaped HTML text back: the entities `&amp;`
/// `&lt;` `&gt;` `&quot;` give `&` `<` `>` `"`, `<br>` gives a line break,
/// and every other character stands for itself.
pub open spec fn html_unescape(t: Seq<char>) -> Seq<char>
    decreases t.len(),
{
    if t.len() == 0 {
        Seq::empty()
    } else if begins_with(t, seq!['&', 'a', 'm', 'p', ';']) {
        seq!['&'] + html_unescape(t.skip(5))
    } else if begins_with(t, seq!['&', 'l', 't', ';']) {
        seq!['<'] + html_unescape(t.skip(4))
    } else if begins_with(t, seq!['&', 'g', 't', ';']) {
        seq!['>'] + html_unescape(t.skip(4))
    } else if begins_with(t, seq!['&', 'q', 'u', 'o', 't', ';']) {
        seq!['"'] + html_unescape(t.skip(6))
    } else if begins_with(t, seq!['<', 'b', 'r', '>']) {
        seq!['\n'] + html_unescape(t.skip(4))
    } else {
        seq![t[0]] + html_unescape(t.skip(1))
    }
}

/// Escaping keeps every character other than `&`, `<`, `>`, `"` and the
/// line break as it is.
pub proof fn lemma_html_escape_keeps_other_chars(c: char)
    requires
        c != '&' && c != '<' && c != '>' && c != '"' && c != '\n',
    ensures
        html_escape_char(c) == seq![c],
{
}

proof fn lemma_html_escaped_append(a: Seq<char>, b: Seq<char>)
    ensures
        html_escaped(a + b) == html_escaped(a) + html_escaped(b),
    decreases b.len(),
{
    if b.len() == 0 {
        assert(a + b == a);
        assert(html_escaped(a) + html_escaped(b) == html_escaped(a));
    } else {
        lemma_html_escaped_append(a, b.drop_last());
        assert((a + b).drop_last() == a + b.drop_last());
        assert((a + b).last() == b.last());
    }
}

proof fn lemma_html_unescape_chunk(c: char, rest: Seq<char>)
    ensures
        html_unescape(html_escape_char(c) + rest) == seq![c] + html_unescape(rest),
{
    reveal_strlit("&amp;");
    reveal_strlit("&lt;");
    reveal_strlit("&gt;");
    reveal_strlit("&quot;");
    reveal_strlit("<br>");
    let e = html_escape_char(c);
    let t = e + rest;
    assert(t.skip(e.len() as int) == rest);
    assert forall|i: int| 0 <= i < e.len() implies t[i] == #[trigger] e[i] by {}
    if c == '&' {
        assert(begins_with(t, seq!['&', 'a', 'm', 'p', ';']));
    } else if c == '<' {
        assert(!begins_with(t, seq!['&', 'a', 'm', 'p', ';'])) by { assert(t[1] == 'l'); }
        assert(begins_with(t, seq!['&', 'l', 't', ';']));
    } else if c == '>' {
        assert(!begins_with(t, seq!['&', 'a', 'm', 'p', ';'])) by { assert(t[1] == 'g'); }
        assert(!begins_with(t, seq!['&', 'l', 't', ';'])) by { assert(t[1] == 'g'); }
        assert(begins_with(t, seq!['&', 'g', 't', ';']));
    } else if c == '"' {
        assert(!begins_with(t, seq!['&', 'a', 'm', 'p', ';'])) by { assert(t[1] == 'q'); }
        assert(!begins_with(t, seq!['&', 'l', 't', ';'])) by { assert(t[1] == 'q'); }
        assert(!begins_with(t, seq!['&', 'g', 't', ';'])) by { assert(t[1] == 'q'); }
        assert(begins_with(t, seq!['&', 'q', 'u', 'o', 't', ';']));
    } else if c == '\n' {
        assert(t[0] == '<');
        assert(!begins_with(t, seq!['&', 'a', 'm', 'p', ';']));
        assert(!begins_with(t, seq!['&', 'l', 't', ';']));
        assert(!begins_with(t, seq!['&', 'g', 't', ';']));
        assert(!begins_with(t, seq!['&', 'q', 'u', 'o', 't', ';']));
        assert(begins_with(t, seq!['<', 'b', 'r', '>']));
    } else {
        assert(t[0] == c);
        assert(!begins_with(t, seq!['&', 'a', 'm', 'p', ';']));
        assert(!begins_with(t, seq!['&', 'l', 't', ';']));
        assert(!begins_with(t, seq!['&', 'g', 't', ';']));
        assert(!begins_with(t, seq!['&', 'q', 'u', 'o', 't', ';']));
        assert(!begins_with(t, seq!['<', 'b', 'r', '>']));
    }
}

/// Reading escaped HTML text back gives the text: every character is
/// either kept or written as the entity (or `<br>`) that stands for it.
pub proof fn lemma_html_escape_round_trip(s: Seq<char>)
    ensures
        html_unescape(html_escaped(s)) == s,
    decreases s.len(),
{
    if s.len() > 0 {
        let first = seq![s[0]];
        let rest = s.drop_first();
        assert(s == first + rest);
        lemma_html_escaped_append(first, rest);
        assert(first.drop_last() == Seq::<char>::empty());
        assert(first.last() == s[0]);
        assert(html_escaped(first.drop_last()) == Seq::<char>::empty());
        assert(Seq::<char>::empty() + html_escape_char(s[0]) == html_escape_char(s[0]));
        assert(html_escaped(first) == html_escape_char(s[0]));
        lemma_html_unescape_chunk(s[0], html_escaped(rest));
        lemma_html_escape_round_trip(rest);
    }
}

// ---------------------------------------------------------------------------
// JavaScript string literals
// ---------------------------------------------------------------------------

/// A control character (general category `Cc`), as `char::is_control` tests it.
pub open spec fn is_control(c: char) -> bool {
    (c as u32) <= 0x1f || (0x7f <= (c as u32) && (c as u32) <= 0x9f)
}

/// Characters written as a `\u00XX` escape: control characters, and `<`,
/// so that no literal can hold `</script` and end the script element it
/// stands in.
pub open spec fn escapes_as_unicode(c: char) -> bool {
    c == '<' || is_control(c)
}

/// What one character becomes inside a JavaScript string literal.
pub open spec fn js_escape_char(c: char) -> Seq<char> {
    if c == '"' {
        seq!['\\', '"']
    } else if c == '\\' {
        seq!['\\', '\\']
    } else if c == '\n' {
        seq!['\\', 'n']
    } else if c == '\r' {
        seq!['\\', 'r']
    } else if c == '\t' {
        seq!['\\', 't']
    } else if escapes_as_unicode(c) {
        seq![
            '\\',
            'u',
            '0',
            '0',
            hex_char(((c as u32) / 16) as nat),
            hex_char(((c as u32) % 16) as nat),
        ]
    } else {
        seq![c]
    }
}

/// The body of the literal for `s`: each character escaped.
pub open spec fn js_escaped(s: Seq<char>) -> Seq<char>
    decreases s.len(),
{
    if s.len() == 0 {
        Seq::empty()
    } else {
        js_escaped(s.drop_last()) + js_escape_char(s.last())
    }
}

/// The double-quoted JavaScript literal for `s`.
pub open spec fn js_literal(s: Seq<char>) -> Seq<char> {
    seq!['"'] + js_escaped(s) + seq!['"']
}

/// The value of a hexadecimal digit of either case.
pub open spec fn hex_value(c: char) -> Option<nat> {
    let u: u32 = c as u32;
    if 48 <= u <= 57 {
        Some((u - 48) as nat)
    } else if 97 <= u <= 102 {
        Some((u - 87) as nat)
    } else if 65 <= u <= 70 {
        Some((u - 55) as nat)
    } else {
        None
    }
}

/// The number that the hexadecimal digits `d` spell (zero for none),
/// or `None` when one of them is no digit.
pub open spec fn hex_digits_value(d: Seq<char>) -> Option<nat>
    decreases d.len(),
{
    if d.len() == 0 {
        Some(0)
    } else {
        match (hex_digits_value(d.drop_last()), hex_value(d.last())) {
            (Some(a), Some(b)) => Some(a * 16 + b),
            _ => None,
        }
    }
}

/// Radix-16 parsing of `h` into an unsigned number: an optional `+`, then
/// at least one digit (`u32::from_str_radix(h, 16)` on at most four characters).
pub open spec fn parse_hex(h: Seq<char>) -> Option<nat> {
    if h.len() == 0 {
        None
    } else if h[0] == '+' {
        if h.len() == 1 {
            None
        } else {
            hex_digits_value(h.drop_first())
        }
    } else {
        hex_digits_value(h)
    }
}

/// The hexadecimal digit for `d < 16`, with `A`-`F` in upper case when
/// `upper` holds and `a`-`f` otherwise.
pub open spec fn hex_digit_char(d: nat, upper: bool) -> char {
    if d < 10 {
        (d + 48) as char
    } else if upper {
        (d + 55) as char
    } else {
        (d + 87) as char
    }
}

/// A hexadecimal digit of either case has its value, and nothing else is
/// a digit: `A`-`F` count as `a`-`f`, 10 to 15.
pub proof fn lemma_hex_value_either_case(d: nat, upper: bool, c: char)
    requires
        d < 16,
    ensures
        hex_value(hex_digit_char(d, upper)) == Some(d),
        hex_value(c) is Some ==> hex_value(c)->0 < 16 && (c == hex_digit_char(hex_value(c)->0, false) || c
            == hex_digit_char(hex_value(c)->0, true)),
{
}

/// A `\u` escape with four hexadecimal digits of either case reads as the
/// character whose code they spell, when that code is a scalar value.
pub proof fn lemma_unicode_escape_reads(
    d0: nat,
    d1: nat,
    d2: nat,
    d3: nat,
    u0: bool,
    u1: bool,
    u2: bool,
    u3: bool,
    rest: Seq<char>,
)
    requires
        d0 < 16 && d1 < 16 && d2 < 16 && d3 < 16,
        is_scalar(d0 * 4096 + d1 * 256 + d2 * 16 + d3),
    ensures
        js_unescape(
            seq![
                '\\',
                'u',
                hex_digit_char(d0, u0),
                hex_digit_char(d1, u1),
                hex_digit_char(d2, u2),
                hex_digit_char(d3, u3),
            ] + rest,
        ) == seq![(d0 * 4096 + d1 * 256 + d2 * 16 + d3) as char] + js_unescape(rest),
{
    let h = seq![hex_digit_char(d0, u0), hex_digit_char(d1, u1), hex_digit_char(d2, u2), hex_digit_char(d3, u3)];
    let s = seq!['\\', 'u'] + h + rest;
    assert(seq![
        '\\',
        'u',
        hex_digit_char(d0, u0),
        hex_digit_char(d1, u1),
        hex_digit_char(d2, u2),
        hex_digit_char(d3, u3),
    ] + rest == s);
    lemma_hex_value_either_case(d0, u0, 'x');
    lemma_hex_value_either_case(d1, u1, 'x');
    lemma_hex_value_either_case(d2, u2, 'x');
    lemma_hex_value_either_case(d3, u3, 'x');
    let r = s.skip(2);
    assert(r == h + rest);
    assert(r.take(4) == h);
    assert(r.skip(4) == rest);
    assert(h[0] != '+');
    assert(h.drop_last() == seq![hex_digit_char(d0, u0), hex_digit_char(d1, u1), hex_digit_char(d2, u2)]);
    assert(h.drop_last().drop_last() == seq![hex_digit_char(d0, u0), hex_digit_char(d1, u1)]);
    assert(h.drop_last().drop_last().drop_last() == seq![hex_digit_char(d0, u0)]);
    assert(h.drop_last().drop_last().drop_last().drop_last() == Seq::<char>::empty());
    let h1 = seq![hex_digit_char(d0, u0)];
    assert(h1.drop_last() == Seq::<char>::empty());
    assert(h1.last() == hex_digit_char(d0, u0));
    assert(hex_digits_value(Seq::<char>::empty()) == Some(0nat));
    assert(hex_digits_value(h1) == Some(d0));
    let h2 = seq![hex_digit_char(d0, u0), hex_digit_char(d1, u1)];
    assert(h2.drop_last() == h1);
    assert(h2.last() == hex_digit_char(d1, u1));
    assert(hex_digits_value(seq![hex_digit_char(d0, u0), hex_digit_char(d1, u1)]) == Some(d0 * 16 + d1));
    assert(h.drop_last().last() == hex_digit_char(d2, u2));
    assert(h.last() == hex_digit_char(d3, u3));
    assert(hex_digits_value(h.drop_last()) == Some((d0 * 16 + d1) * 16 + d2));
    assert(hex_digits_value(h) == Some(((d0 * 16 + d1) * 16 + d2) * 16 + d3));
    assert(((d0 * 16 + d1) * 16 + d2) * 16 + d3 == d0 * 4096 + d1 * 256 + d2 * 16 + d3) by (nonlinear_arith);
    assert(parse_hex(h) == Some(d0 * 4096 + d1 * 256 + d2 * 16 + d3));
    assert(s[0] == '\\' && s[1] == 'u');
}

/// A Unicode scalar value: what `char::from_u32` accepts.
pub open spec fn is_scalar(v: nat) -> bool {
    v < 0xD800 || (0xE000 <= v && v <= 0x10FFFF)
}

/// The characters that the body of a JavaScript literal stands for, as
/// `eval_js_str` reads them: the escapes `\" \\ \n \r \t` and `\uXXXX`;
/// a `\u` whose (up to four) following characters give no scalar value is
/// dropped with them; any other escaped character is read as a backslash.
pub open spec fn js_unescape(s: Seq<char>) -> Seq<char>
    decreases s.len(),
{
    if s.len() == 0 {
        Seq::empty()
    } else if s[0] != '\\' {
        seq![s[0]] + js_unescape(s.drop_first())
    } else if s.len() == 1 {
        seq!['\\']
    } else {
        let e = s[1];
        let rest = s.skip(2);
        if e == '"' {
            seq!['"'] + js_unescape(rest)
        } else if e == '\\' {
            seq!['\\'] + js_unescape(rest)
        } else if e == 'n' {
            seq!['\n'] + js_unescape(rest)
        } else if e == 'r' {
            seq!['\r'] + js_unescape(rest)
        } else if e == 't' {
            seq!['\t'] + js_unescape(rest)
        } else if e == 'u' {
            let k: int = if rest.len() < 4 {
                rest.len() as int
            } else {
                4
            };
            let tail = rest.skip(k);
            match parse_hex(rest.take(k)) {
                Some(v) => if is_scalar(v) {
                    seq![v as char] + js_unescape(tail)
                } else {
                    js_unescape(tail)
                },
                None => js_unescape(tail),
            }
        } else {
            seq!['\\'] + js_unescape(rest)
        }
    }
}

/// What `eval_js_str` gives for `code`: the unescaped body when the trimmed
/// code is a double-quoted literal, `None` otherwise.
pub open spec fn js_literal_value(code: Seq<char>) -> Option<Seq<char>> {
    let t = trim(code);
    if t.len() >= 2 && t[0] == '"' && t.last() == '"' {
        Some(js_unescape(t.subrange(1, t.len() - 1)))
    } else {
        None
    }
}

// ---------------------------------------------------------------------------
// Executable escaping and reading
// ---------------------------------------------------------------------------

/// The character whose scalar value is `v`, if there is one (`char::from_u32`).
#[verifier::external_body]
fn char_from_u32(v: u32) -> (r: Option<char>)
    ensures
        is_scalar(v as nat) ==> r == Some((v as nat) as char),
        !is_scalar(v as nat) ==> r is None,
{
    char::from_u32(v)
}

fn push_html_escape(out: &mut String, c: char)
    ensures
        final(out)@ == old(out)@ + html_escape_char(c),
{
    if c == '&' {
        out.append("&amp;");
    } else if c == '<' {
        out.append("&lt;");
    } else if c == '>' {
        out.append("&gt;");
    } else if c == '"' {
        out.append("&quot;");
    } else if c == '\n' {
        out.append("<br>");
    } else {
        push_char(out, c);
    }
}

/// Simple HTML escaping for text injected into the document body:
/// `&`, `<`, `>` and `"` become entities, a newline becomes `<br>`.
pub fn escape_html(s: &str) -> (r: String)
    ensures
        r@ == html_escaped(s@),
{
    let v = chars_of(s);
    let n: usize = v.len();
    let mut out = String::new();
    let mut i: usize = 0;
    while i < n
        invariant
            i <= n == v@.len(),
            v@ == s@,
            out@ == html_escaped(v@.take(i as int)),
        decreases n - i,
    {
        push_html_escape(&mut out, v[i]);
        assert(v@.take(i + 1).drop_last() == v@.take(i as int));
        i = i + 1;
    }
    assert(v@.take(n as int) == v@);
    out
}

fn is_control_char(c: char) -> (b: bool)
    ensures
        b == is_control(c),
{
    let u: u32 = c as u32;
    u <= 0x1f || (0x7f <= u && u <= 0x9f)
}

fn push_js_escape(out: &mut String, c: char)
    ensures
        final(out)@ == old(out)@ + js_escape_char(c),
{
    let ghost start = out@;
    if c == '"' {
        push_char(out, '\\');
        push_char(out, '"');
    } else if c == '\\' {
        push_char(out, '\\');
        push_char(out, '\\');
    } else if c == '\n' {
        push_char(out, '\\');
        push_char(out, 'n');
    } else if c == '\r' {
        push_char(out, '\\');
        push_char(out, 'r');
    } else if c == '\t' {
        push_char(out, '\\');
        push_char(out, 't');
    } else if c == '<' || is_control_char(c) {
        let u: u32 = c as u32;
        push_char(out, '\\');
        push_char(out, 'u');
        push_char(out, '0');
        push_char(out, '0');
        push_char(out, hex_digit(u / 16));
        push_char(out, hex_digit(u % 16));
    } else {
        push_char(out, c);
    }
    assert(out@ == start + js_escape_char(c));
}

/// Escape a string for safe use inside an inline JS string literal: the
/// result is `s` between double quotes, with `"`, `\`, newline, carriage
/// return and tab escaped by a backslash, and `<` and the other control
/// characters written `\u00XX`.
pub fn escape_js_string(s: &str) -> (r: String)
    ensures
        r@ == js_literal(s@),
{
    let v = chars_of(s);
    let n: usize = v.len();
    let mut out = String::new();
    push_char(&mut out, '"');
    let mut i: usize = 0;
    while i < n
        invariant
            i <= n == v@.len(),
            v@ == s@,
            out@ == seq!['"'] + js_escaped(v@.take(i as int)),
        decreases n - i,
    {
        push_js_escape(&mut out, v[i]);
        assert(v@.take(i + 1).drop_last() == v@.take(i as int));
        i = i + 1;
    }
    assert(v@.take(n as int) == v@);
    push_char(&mut out, '"');
    out
}

/// `16` to the power `k`.
pub open spec fn pow16(k: nat) -> nat
    decreases k,
{
    if k == 0 {
        1
    } else {
        16 * pow16((k - 1) as nat)
    }
}

proof fn lemma_hex_digits_bound(d: Seq<char>)
    ensures
        hex_digits_value(d) matches Some(v) ==> v < pow16(d.len()),
    decreases d.len(),
{
    if d.len() > 0 {
        lemma_hex_digits_bound(d.drop_last());
    }
}

fn hex_digit_value(c: char) -> (r: Option<u32>)
    ensures
        hex_value(c) matches Some(x) ==> r == Some(x as u32),
        hex_value(c) is None ==> r is None,
{
    let u: u32 = c as u32;
    if 48 <= u && u <= 57 {
        Some(u - 48)
    } else if 97 <= u && u <= 102 {
        Some(u - 87)
    } else if 65 <= u && u <= 70 {
        Some(u - 55)
    } else {
        None
    }
}

fn hex_digits_value_of(v: &Vec<char>, from: usize, to: usize) -> (r: Option<u32>)
    requires
        from <= to <= v.len(),
        to - from <= 4,
    ensures
        r matches Some(y) ==> hex_digits_value(v@.subrange(from as int, to as int)) == Some(
            y as nat,
        ),
        r is None ==> hex_digits_value(v@.subrange(from as int, to as int)) is None,
{
    let mut acc: u32 = 0;
    let mut i = from;
    while i < to
        invariant
            from <= i <= to <= v.len(),
            to - from <= 4,
            hex_digits_value(v@.subrange(from as int, i as int)) == Some(acc as nat),
        decreases to - i,
    {
        let ghost d = v@.subrange(from as int, i + 1);
        assert(d.drop_last() == v@.subrange(from as int, i as int));
        proof {
            lemma_hex_digits_bound(v@.subrange(from as int, i as int));
            reveal_with_fuel(pow16, 5);
            assert(acc < 4096) by {
                let k = (i - from) as nat;
                assert(k <= 3);
                if k == 0 {
                } else if k == 1 {
                } else if k == 2 {
                } else {
                }
            }
        }
        match hex_digit_value(v[i]) {
            Some(x) => {
                acc = acc * 16 + x;
            },
            None => {
                assert(hex_digits_value(d) is None);
                proof {
                    lemma_hex_digits_none(v@.subrange(from as int, to as int), (i + 1 - from) as nat);
                    assert(v@.subrange(from as int, to as int).take((i + 1 - from) as int) == d);
                }
                return None;
            },
        }
        i = i + 1;
    }
    Some(acc)
}

proof fn lemma_hex_digits_none(d: Seq<char>, k: nat)
    requires
        k <= d.len(),
        hex_digits_value(d.take(k as int)) is None,
    ensures
        hex_digits_value(d) is None,
    decreases d.len() - k,
{
    if k < d.len() {
        assert(d.take(k + 1 as int).drop_last() == d.take(k as int));
        lemma_hex_digits_none(d, (k + 1) as nat);
    } else {
        assert(d.take(k as int) == d);
    }
}

fn parse_hex_of(v: &Vec<char>, from: usize, to: usize) -> (r: Option<u32>)
    requires
        from <= to <= v.len(),
        to - from <= 4,
    ensures
        r matches Some(y) ==> parse_hex(v@.subrange(from as int, to as int)) == Some(y as nat),
        r is None ==> parse_hex(v@.subrange(from as int, to as int)) is None,
{
    let ghost h = v@.subrange(from as int, to as int);
    if from == to {
        None
    } else if v[from] == '+' {
        if from + 1 == to {
            None
        } else {
            assert(h.drop_first() == v@.subrange(from + 1, to as int));
            hex_digits_value_of(v, from + 1, to)
        }
    } else {
        hex_digits_value_of(v, from, to)
    }
}

/// Reads the `\u` escape whose hex digits start at `v[start]`.
fn unescape_unicode(v: &Vec<char>, start: usize, to: usize, out: &mut String) -> (next: usize)
    requires
        2 <= start <= to <= v.len(),
        v@[start - 2] == '\\',
        v@[start - 1] == 'u',
    ensures
        start <= next <= to,
        old(out)@ + js_unescape(v@.subrange(start - 2, to as int)) == final(out)@ + js_unescape(
            v@.subrange(next as int, to as int),
        ),
{
    let ghost s = v@.subrange(start - 2, to as int);
    let ghost rest = s.skip(2);
    let ghost before = out@;
    assert(rest == v@.subrange(start as int, to as int));
    let avail: usize = to - start;
    let k: usize = if avail < 4 {
        avail
    } else {
        4
    };
    assert(rest.take(k as int) == v@.subrange(start as int, (start + k) as int));
    assert(rest.skip(k as int) == v@.subrange((start + k) as int, to as int));
    let ghost tail = rest.skip(k as int);
    match parse_hex_of(v, start, start + k) {
        Some(x) => {
            match char_from_u32(x) {
                Some(ch) => {
                    push_char(out, ch);
                    assert(js_unescape(s) == seq![ch] + js_unescape(tail));
                    assert(before + (seq![ch] + js_unescape(tail)) == out@ + js_unescape(tail));
                },
                None => {
                    assert(js_unescape(s) == js_unescape(tail));
                },
            }
        },
        None => {
            assert(js_unescape(s) == js_unescape(tail));
        },
    }
    start + k
}

/// Reads one character or escape at `v[i]`.
fn unescape_one(v: &Vec<char>, i: usize, to: usize, out: &mut String) -> (next: usize)
    requires
        i < to <= v.len(),
    ensures
        i < next <= to,
        old(out)@ + js_unescape(v@.subrange(i as int, to as int)) == final(out)@ + js_unescape(
            v@.subrange(next as int, to as int),
        ),
{
    let ghost s = v@.subrange(i as int, to as int);
    let ghost before = out@;
    let c = v[i];
    if c != '\\' {
        push_char(out, c);
        assert(s.drop_first() == v@.subrange(i + 1, to as int));
        assert(before + (seq![c] + js_unescape(s.drop_first())) == out@ + js_unescape(
            s.drop_first(),
        ));
        i + 1
    } else if i + 1 == to {
        push_char(out, '\\');
        assert(js_unescape(v@.subrange(to as int, to as int)) == Seq::<char>::empty());
        assert(before + seq!['\\'] == out@ + Seq::<char>::empty());
        to
    } else {
        let e = v[i + 1];
        let ghost rest = s.skip(2);
        assert(rest == v@.subrange(i + 2, to as int));
        if e == 'u' {
            unescape_unicode(v, i + 2, to, out)
        } else {
            let ch = if e == '"' {
                '"'
            } else if e == '\\' {
                '\\'
            } else if e == 'n' {
                '\n'
            } else if e == 'r' {
                '\r'
            } else if e == 't' {
                '\t'
            } else {
                '\\'
            };
            push_char(out, ch);
            assert(js_unescape(s) == seq![ch] + js_unescape(rest));
            assert(before + (seq![ch] + js_unescape(rest)) == out@ + js_unescape(rest));
            i + 2
        }
    }
}

/// The characters that `v[from..to]`, the body of a JavaScript literal, stands for.
fn unescape_range(v: &Vec<char>, from: usize, to: usize) -> (r: String)
    requires
        from <= to <= v.len(),
    ensures
        r@ == js_unescape(v@.subrange(from as int, to as int)),
{
    let mut out = String::new();
    let mut i = from;
    while i < to
        invariant
            from <= i <= to <= v.len(),
            js_unescape(v@.subrange(from as int, to as int)) == out@ + js_unescape(
                v@.subrange(i as int, to as int),
            ),
        decreases to - i,
    {
        i = unescape_one(v, i, to, &mut out);
    }
    assert(js_unescape(v@.subrange(to as int, to as int)) == Seq::<char>::empty());
    assert(out@ + Seq::<char>::empty() == out@);
    out
}

/// Reads a double-quoted JavaScript string literal (surrounding whitespace
/// ignored) back into the string it stands for; `None` when `code` is no
/// such literal.
pub fn eval_js_str(code: &str) -> (r: Option<String>)
    requires
        trim(code@) != seq!['"'],
    ensures
        r is Some <==> js_literal_value(code@) is Some,
        r matches Some(x) ==> js_literal_value(code@) == Some(x@),
{
    let t = trim_string(code);
    let v = chars_of(t.as_str());
    let n: usize = v.len();
    if n == 0 || v[0] != '"' || v[n - 1] != '"' {
        return None;
    }
    assert(n >= 2) by {
        if n == 1 {
            assert(v@ == seq!['"']);
        }
    }
    Some(unescape_range(&v, 1, n - 1))
}

// ---------------------------------------------------------------------------
// Round trip
// ---------------------------------------------------------------------------

proof fn lemma_js_escaped_append(a: Seq<char>, b: Seq<char>)
    ensures
        js_escaped(a + b) == js_escaped(a) + js_escaped(b),
    decreases b.len(),
{
    if b.len() == 0 {
        assert(a + b == a);
    } else {
        lemma_js_escaped_append(a, b.drop_last());
        assert((a + b).drop_last() == a + b.drop_last());
        assert((a + b).last() == b.last());
    }
}

proof fn lemma_unescape_escape_char(c: char, t: Seq<char>)
    ensures
        js_unescape(js_escape_char(c) + t) == seq![c] + js_unescape(t),
{
    let x = js_escape_char(c) + t;
    if c == '"' || c == '\\' || c == '\n' || c == '\r' || c == '\t' {
        assert(x.skip(2) == t);
    } else if escapes_as_unicode(c) {
        let u: u32 = c as u32;
        let rest = x.skip(2);
        let h = rest.take(4);
        assert(rest.skip(4) == t);
        let hi = (u / 16) as nat;
        let lo = (u % 16) as nat;
        assert(h == seq!['0', '0', hex_char(hi), hex_char(lo)]);
        assert(hex_value(hex_char(hi)) == Some(hi));
        assert(hex_value(hex_char(lo)) == Some(lo));
        assert(h.drop_last().drop_last().drop_last().drop_last() == Seq::<char>::empty());
        let d1 = h.drop_last().drop_last().drop_last();
        assert(d1 == seq!['0']);
        assert(d1.drop_last() == Seq::<char>::empty());
        assert(hex_digits_value(d1.drop_last()) == Some(0nat));
        assert(d1.last() == '0');
        assert(h.drop_last().drop_last() == seq!['0', '0']);
        assert(hex_value('0') == Some(0nat));
        assert(hex_digits_value(h.drop_last().drop_last().drop_last()) == Some(0nat));
        assert(hex_digits_value(h.drop_last().drop_last()) == Some(0nat));
        assert(hex_digits_value(h.drop_last()) == Some(hi));
        assert(hex_digits_value(h) == Some(hi * 16 + lo));
        assert(hi * 16 + lo == u as nat);
        assert(parse_hex(h) == Some(u as nat));
        assert(is_scalar(u as nat));
        assert(((u as nat) as char) == c);
    } else {
        assert(x.drop_first() == t);
    }
}

proof fn lemma_unescape_escaped(s: Seq<char>)
    ensures
        js_unescape(js_escaped(s)) == s,
    decreases s.len(),
{
    if s.len() > 0 {
        let c = s[0];
        let r = s.drop_first();
        assert(s == seq![c] + r);
        lemma_js_escaped_append(seq![c], r);
        assert(seq![c].drop_last() == Seq::<char>::empty());
        assert(js_escaped(seq![c]) == js_escape_char(c)) by {
            let e = seq![c];
            assert(e.drop_last() == Seq::<char>::empty());
            assert(js_escaped(e.drop_last()) == Seq::<char>::empty());
            assert(e.last() == c);
            assert(Seq::<char>::empty() + js_escape_char(c) == js_escape_char(c));
        }
        lemma_unescape_escape_char(c, js_escaped(r));
        lemma_unescape_escaped(r);
    }
}

/// Reading back what `escape_js_string` wrote gives the original string:
/// for every `s`, `eval_js_str(&escape_js_string(s)) == Some(s)`, and that
/// call meets `eval_js_str`'s `requires`.
pub proof fn lemma_js_string_round_trip(s: Seq<char>)
    ensures
        trim(js_literal(s)) != seq!['"'],
        js_literal_value(js_literal(s)) == Some(s),
{
    let lit = js_literal(s);
    assert(lit[0] == '"');
    assert(lit.last() == '"');
    assert(trim_start(lit) == lit);
    assert(trim_end(lit) == lit);
    assert(lit.len() >= 2);
    assert(lit.subrange(1, lit.len() - 1) == js_escaped(s));
    lemma_unescape_escaped(s);
}

// ---------------------------------------------------------------------------
// Well-formed literals
// ---------------------------------------------------------------------------

/// `b` reads as a run of escapes and plain characters: every backslash
/// starts a two-character escape, and no double quote stands unescaped.
pub open spec fn js_body_well_formed(b: Seq<char>) -> bool
    decreases b.len(),
{
    if b.len() == 0 {
        true
    } else if b[0] == '\\' {
        b.len() >= 2 && js_body_well_formed(b.skip(2))
    } else {
        b[0] != '"' && js_body_well_formed(b.drop_first())
    }
}

/// A character that may stand anywhere in a literal written by
/// `escape_js_string`: no control character, and no `<`.
pub open spec fn js_safe_char(c: char) -> bool {
    !is_control(c) && c != '<'
}

proof fn lemma_well_formed_concat(a: Seq<char>, b: Seq<char>)
    requires
        js_body_well_formed(a),
        js_body_well_formed(b),
    ensures
        js_body_well_formed(a + b),
    decreases a.len(),
{
    if a.len() == 0 {
        assert(a + b == b);
    } else if a[0] == '\\' {
        lemma_well_formed_concat(a.skip(2), b);
        assert((a + b).skip(2) == a.skip(2) + b);
    } else {
        lemma_well_formed_concat(a.drop_first(), b);
        assert((a + b).drop_first() == a.drop_first() + b);
    }
}

proof fn lemma_escape_char_well_formed(c: char)
    ensures
        js_body_well_formed(js_escape_char(c)),
        forall|i: int| 0 <= i < js_escape_char(c).len() ==> js_safe_char(#[trigger] js_escape_char(c)[i]),
{
    let e = js_escape_char(c);
    assert(js_body_well_formed(Seq::<char>::empty()));
    if e.len() == 2 {
        assert(e.skip(2) == Seq::<char>::empty());
        assert(js_body_well_formed(e));
    } else if e.len() == 6 {
        let u = c as u32;
        let r = e.skip(2);
        assert(r == seq!['0', '0', hex_char((u / 16) as nat), hex_char((u % 16) as nat)]);
        assert(r.drop_first() == seq!['0', hex_char((u / 16) as nat), hex_char((u % 16) as nat)]);
        assert(r.drop_first().drop_first() == seq![hex_char((u / 16) as nat), hex_char((u % 16) as nat)]);
        assert(r.drop_first().drop_first().drop_first() == seq![hex_char((u % 16) as nat)]);
        assert(r.drop_first().drop_first().drop_first().drop_first() == Seq::<char>::empty());
        assert(js_body_well_formed(r.drop_first().drop_first().drop_first().drop_first()));
        assert(js_body_well_formed(r.drop_first().drop_first().drop_first()));
        assert(js_body_well_formed(r.drop_first().drop_first()));
        assert(js_body_well_formed(r.drop_first()));
        assert(js_body_well_formed(r));
        assert(js_body_well_formed(e));
    } else {
        assert(e.drop_first() == Seq::<char>::empty());
        assert(js_body_well_formed(e));
    }
}

proof fn lemma_escaped_well_formed(s: Seq<char>)
    ensures
        js_body_well_formed(js_escaped(s)),
        forall|i: int| 0 <= i < js_escaped(s).len() ==> js_safe_char(#[trigger] js_escaped(s)[i]),
        js_escaped(s).len() >= s.len(),
    decreases s.len(),
{
    if s.len() > 0 {
        let a = js_escaped(s.drop_last());
        let b = js_escape_char(s.last());
        lemma_escaped_well_formed(s.drop_last());
        lemma_escape_char_well_formed(s.last());
        lemma_well_formed_concat(a, b);
        assert forall|i: int| 0 <= i < (a + b).len() implies js_safe_char(#[trigger] (a + b)[i]) by {
            if i < a.len() {
                assert((a + b)[i] == a[i]);
            } else {
                assert((a + b)[i] == b[i - a.len()]);
            }
        }
    }
}

/// What `escape_js_string` writes is one well-formed JavaScript string
/// literal: a double quote, a body in which every backslash starts an
/// escape and no double quote stands unescaped, and a closing double quote;
/// it holds no control character and no `<` (so never `</script`), and it
/// is at least two characters longer than the text.
pub proof fn lemma_js_literal_well_formed(s: Seq<char>)
    ensures
        js_literal(s).len() >= s.len() + 2,
        js_literal(s)[0] == '"',
        js_literal(s).last() == '"',
        js_body_well_formed(js_literal(s).subrange(1, js_literal(s).len() - 1)),
        forall|i: int| 0 <= i < js_literal(s).len() ==> js_safe_char(#[trigger] js_literal(s)[i]),
{
    lemma_escaped_well_formed(s);
    let lit = js_literal(s);
    let b = js_escaped(s);
    assert(lit.subrange(1, lit.len() - 1) == b);
    assert forall|i: int| 0 <= i < lit.len() implies js_safe_char(#[trigger] lit[i]) by {
        if 0 < i < lit.len() - 1 {
            assert(lit[i] == b[i - 1]);
        }
    }
}

// ---------------------------------------------------------------------------
// Backslash runs and encoded length
// ---------------------------------------------------------------------------

/// The number of backslashes that directly precede position `i` of `s`.
pub open spec fn backslashes_before(s: Seq<char>, i: int) -> nat
    decreases i,
{
    if i <= 0 || s[i - 1] != '\\' {
        0
    } else {
        1 + backslashes_before(s, i - 1)
    }
}

proof fn lemma_backslashes_prefix(a: Seq<char>, b: Seq<char>, i: int)
    requires
        0 <= i <= a.len(),
    ensures
        backslashes_before(a + b, i) == backslashes_before(a, i),
    decreases i,
{
    if i > 0 {
        assert((a + b)[i - 1] == a[i - 1]);
        lemma_backslashes_prefix(a, b, i - 1);
    }
}

proof fn lemma_backslashes_after_quote(x: Seq<char>, j: int)
    requires
        0 <= j <= x.len(),
    ensures
        backslashes_before(seq!['"'] + x, j + 1) == backslashes_before(x, j),
    decreases j,
{
    let l = seq!['"'] + x;
    if j > 0 {
        assert(l[j] == x[j - 1]);
        lemma_backslashes_after_quote(x, j - 1);
    } else {
        assert(l[0] == '"');
    }
}

/// Every double quote of `x` is preceded by an odd run of backslashes, and
/// `x` ends after an even run.
pub open spec fn quotes_escaped(x: Seq<char>) -> bool {
    &&& backslashes_before(x, x.len() as int) % 2 == 0
    &&& forall|i: int| 0 <= i < x.len() && #[trigger] x[i] == '"' ==> backslashes_before(x, i) % 2 == 1
}

proof fn lemma_quotes_escaped_plain(a: Seq<char>, t: Seq<char>)
    requires
        quotes_escaped(a),
        forall|k: int| 0 <= k < t.len() ==> #[trigger] t[k] != '\\' && t[k] != '"',
    ensures
        quotes_escaped(a + t),
{
    let x = a + t;
    let n = a.len() as int;
    if t.len() == 0 {
        assert(x == a);
    } else {
        assert forall|i: int| 0 <= i < x.len() && #[trigger] x[i] == '"' implies backslashes_before(x, i) % 2
            == 1 by {
            if i < n {
                assert(x[i] == a[i]);
                lemma_backslashes_prefix(a, t, i);
            } else {
                assert(x[i] == t[i - n]);
            }
        }
        assert(x[x.len() - 1] == t[t.len() - 1]);
    }
}

proof fn lemma_quotes_escaped_pair(a: Seq<char>, d: char)
    requires
        quotes_escaped(a),
    ensures
        quotes_escaped(a + seq!['\\', d]),
{
    let x = a + seq!['\\', d];
    let n = a.len() as int;
    lemma_backslashes_prefix(a, seq!['\\', d], n);
    assert(x[n] == '\\');
    assert(x[n + 1] == d);
    assert(backslashes_before(x, n + 1) == 1 + backslashes_before(x, n));
    if d == '\\' {
        assert(backslashes_before(x, n + 2) == 1 + backslashes_before(x, n + 1));
    }
    assert forall|i: int| 0 <= i < x.len() && #[trigger] x[i] == '"' implies backslashes_before(x, i) % 2
        == 1 by {
        if i < n {
            assert(x[i] == a[i]);
            lemma_backslashes_prefix(a, seq!['\\', d], i);
        }
    }
}

proof fn lemma_hex_char_plain(d: nat)
    requires
        d < 16,
    ensures
        hex_char(d) != '\\',
        hex_char(d) != '"',
        (hex_char(d) as u32) <= 0x7f,
{
}

proof fn lemma_escaped_quotes_escaped(s: Seq<char>)
    ensures
        quotes_escaped(js_escaped(s)),
    decreases s.len(),
{
    if s.len() == 0 {
        assert(backslashes_before(js_escaped(s), 0) == 0);
    } else {
        let a = js_escaped(s.drop_last());
        let c = s.last();
        lemma_escaped_quotes_escaped(s.drop_last());
        if c == '"' || c == '\\' || c == '\n' || c == '\r' || c == '\t' {
            lemma_quotes_escaped_pair(a, js_escape_char(c)[1]);
            assert(js_escape_char(c) == seq!['\\', js_escape_char(c)[1]]);
        } else if escapes_as_unicode(c) {
            let u = c as u32;
            let h1 = hex_char((u / 16) as nat);
            let h2 = hex_char((u % 16) as nat);
            lemma_hex_char_plain((u / 16) as nat);
            lemma_hex_char_plain((u % 16) as nat);
            let t = seq!['0', '0', h1, h2];
            lemma_quotes_escaped_pair(a, 'u');
            lemma_quotes_escaped_plain(a + seq!['\\', 'u'], t);
            assert((a + seq!['\\', 'u']) + t == a + js_escape_char(c));
        } else {
            lemma_quotes_escaped_plain(a, seq![c]);
        }
    }
}

/// Inside what `escape_js_string` writes, every double quote is preceded by
/// an odd run of backslashes (it is escaped), and the closing double quote by
/// an even run (it ends the literal).
pub proof fn lemma_js_literal_quotes_escaped(s: Seq<char>)
    ensures
        forall|i: int|
            0 < i < js_literal(s).len() - 1 && #[trigger] js_literal(s)[i] == '"'
                ==> backslashes_before(js_literal(s), i) % 2 == 1,
        backslashes_before(js_literal(s), js_literal(s).len() - 1) % 2 == 0,
{
    let e = js_escaped(s);
    let l = js_literal(s);
    lemma_escaped_quotes_escaped(s);
    assert(l == (seq!['"'] + e) + seq!['"']);
    assert forall|i: int| 0 < i < l.len() - 1 && #[trigger] l[i] == '"' implies backslashes_before(l, i) % 2
        == 1 by {
        assert(l[i] == e[i - 1]);
        lemma_backslashes_prefix(seq!['"'] + e, seq!['"'], i);
        lemma_backslashes_after_quote(e, i - 1);
    }
    lemma_backslashes_prefix(seq!['"'] + e, seq!['"'], l.len() - 1);
    lemma_backslashes_after_quote(e, e.len() as int);
}

proof fn lemma_encode_utf8_append(a: Seq<char>, b: Seq<char>)
    ensures
        vstd::utf8::encode_utf8(a + b).len() == vstd::utf8::encode_utf8(a).len() + vstd::utf8::encode_utf8(b).len(),
    decreases a.len(),
{
    if a.len() > 0 {
        lemma_encode_utf8_append(a.drop_first(), b);
        assert((a + b).drop_first() == a.drop_first() + b);
        assert((a + b)[0] == a[0]);
    } else {
        assert(a + b == b);
    }
}

proof fn lemma_encode_utf8_ascii(x: Seq<char>)
    requires
        forall|i: int| 0 <= i < x.len() ==> (#[trigger] x[i] as u32) <= 0x7f,
    ensures
        vstd::utf8::encode_utf8(x).len() == x.len(),
    decreases x.len(),
{
    if x.len() > 0 {
        assert(x[0] as u32 <= 0x7f);
        assert forall|i: int| 0 <= i < x.drop_first().len() implies (#[trigger] x.drop_first()[i] as u32) <= 0x7f by {
            assert(x.drop_first()[i] == x[i + 1]);
        }
        lemma_encode_utf8_ascii(x.drop_first());
    }
}

proof fn lemma_escape_char_encoded_length(c: char)
    ensures
        vstd::utf8::encode_utf8(js_escape_char(c)).len() >= vstd::utf8::encode_utf8(seq![c]).len(),
{
    let e = js_escape_char(c);
    let u = c as u32;
    assert(seq![c].drop_first() == Seq::<char>::empty());
    assert(seq![c][0] == c);
    assert(vstd::utf8::encode_utf8(seq![c]) == vstd::utf8::encode_scalar(u) + vstd::utf8::encode_utf8(
        Seq::<char>::empty(),
    ));
    if c == '"' || c == '\\' || c == '\n' || c == '\r' || c == '\t' || escapes_as_unicode(c) {
        assert(u <= 0x9f);
        assert(vstd::utf8::encode_scalar(u).len() <= 2);
        lemma_hex_char_plain((u / 16) as nat);
        lemma_hex_char_plain((u % 16) as nat);
        assert forall|i: int| 0 <= i < e.len() implies (#[trigger] e[i] as u32) <= 0x7f by {}
        lemma_encode_utf8_ascii(e);
    } else {
        assert(e == seq![c]);
    }
}

proof fn lemma_escaped_encoded_length(s: Seq<char>)
    ensures
        vstd::utf8::encode_utf8(js_escaped(s)).len() >= vstd::utf8::encode_utf8(s).len(),
    decreases s.len(),
{
    if s.len() > 0 {
        let d = s.drop_last();
        let c = s.last();
        lemma_escaped_encoded_length(d);
        lemma_encode_utf8_append(js_escaped(d), js_escape_char(c));
        lemma_escape_char_encoded_length(c);
        assert(s == d + seq![c]);
        lemma_encode_utf8_append(d, seq![c]);
    }
}

/// In UTF-8 bytes too, the literal `escape_js_string` writes is at least
/// two longer than the text: escaping never shortens a character's encoding.
pub proof fn lemma_js_literal_encoded_length(s: Seq<char>)
    ensures
        vstd::utf8::encode_utf8(js_literal(s)).len() >= vstd::utf8::encode_utf8(s).len() + 2,
{
    let q = seq!['"'];
    let e = js_escaped(s);
    lemma_escaped_encoded_length(s);
    lemma_encode_utf8_append(q + e, q);
    lemma_encode_utf8_append(q, e);
    lemma_encode_utf8_ascii(q);
}

} // verus!
