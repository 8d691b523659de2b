//! Which custom properties the page reads: every `var(..)` of a page built
//! with the theme's defaults names a property that those defaults declare.
use vstd::prelude::*;
use crate::css::{declaration_text, declarations_text};
use crate::cyberhtml::{
    default_declarations, default_property_names, style_piece_text, style_pieces_1, style_pieces_2,
    style_pieces_3, style_pieces_4, style_pieces_5, style_pieces_6, style_pieces_7, style_pieces_8,
    style_pieces, style_text, css_block, html_document, occurs_in, lemma_defaults_block_same_as_blank,
    PAGE_DOCTYPE, PAGE_HEAD, PAGE_SCRIPT_HEAD, QUOTE_TEXT_DECLARATION, STATEMENT_END, NEXT_DECLARATION,
    QUOTE_AUTHOR_DECLARATION, CYCLE_MINUTES_DECLARATION, PAGE_SCRIPT_BODY, CYCLE_TEST, PAGE_SCRIPT_TAIL, PAGE_END,
};
use crate::escape::{escapes_as_unicode, js_escape_char, js_escaped, js_literal};
use crate::text::{decimal, hex_char};
use crate::config::lemma_lacks_decimal;
use crate::css::lemma_declarations_text_first;

verus! {

/// `s` holds `var(` at position `i`.
pub open spec fn var_call_at(s: Seq<char>, i: int) -> bool {
    0 <= i && i + 4 <= s.len() && s[i] == 'v' && s[i + 1] == 'a' && s[i + 2] == 'r' && s[i + 3] == '('
}

/// `s` holds no `var(`.
pub open spec fn no_var_call(s: Seq<char>) -> bool {
    forall|i: int| !#[trigger] var_call_at(s, i)
}

/// The first `)` of `s` at or after position `from` stands at `j`.
pub open spec fn first_close_at(s: Seq<char>, from: int, j: int) -> bool {
    &&& from <= j < s.len()
    &&& s[j] == ')'
    &&& forall|k: int| from <= k < j ==> s[k] != ')'
}

/// Every `var(` of `s` is closed within `s`, and what stands between it and
/// the first `)` after it is one of `names`.
#[verifier::opaque]
pub open spec fn reads_only(s: Seq<char>, names: Seq<Seq<char>>) -> bool {
    forall|i: int|
        #[trigger] var_call_at(s, i) ==> exists|j: int|
            first_close_at(s, i + 4, j) && names.contains(#[trigger] s.subrange(i + 4, j))
}

/// No `var(` can stand across the joint of `a` and `b`.
pub open spec fn joins_clean(a: Seq<char>, b: Seq<char>) -> bool {
    ||| a.len() == 0
    ||| b.len() == 0
    ||| (a.last() != 'v' && a.last() != 'a' && a.last() != 'r')
    ||| (b[0] != 'a' && b[0] != 'r' && b[0] != '(')
}

proof fn lemma_no_var_call_reads_only(s: Seq<char>, names: Seq<Seq<char>>)
    requires
        no_var_call(s),
    ensures
        reads_only(s, names),
{
    reveal(reads_only);
}

proof fn lemma_reads_only_concat(a: Seq<char>, b: Seq<char>, names: Seq<Seq<char>>)
    requires
        reads_only(a, names),
        reads_only(b, names),
        joins_clean(a, b),
    ensures
        reads_only(a + b, names),
{
    reveal(reads_only);
    let s = a + b;
    let n = a.len() as int;
    assert forall|i: int| #[trigger] var_call_at(s, i) implies exists|j: int|
        first_close_at(s, i + 4, j) && names.contains(#[trigger] s.subrange(i + 4, j)) by {
        if i + 4 <= n {
            assert(s[i] == a[i] && s[i + 1] == a[i + 1] && s[i + 2] == a[i + 2] && s[i + 3] == a[i + 3]);
            assert(var_call_at(a, i));
            let j = choose|j: int| first_close_at(a, i + 4, j) && names.contains(#[trigger] a.subrange(i + 4, j));
            assert(s.subrange(i + 4, j) == a.subrange(i + 4, j));
            assert forall|k: int| i + 4 <= k < j implies s[k] != ')' by {
                assert(s[k] == a[k]);
            }
            assert(first_close_at(s, i + 4, j));
        } else if i >= n {
            let i2 = i - n;
            assert(s[i] == b[i2] && s[i + 1] == b[i2 + 1] && s[i + 2] == b[i2 + 2] && s[i + 3] == b[i2 + 3]);
            assert(var_call_at(b, i2));
            let j = choose|j: int| first_close_at(b, i2 + 4, j) && names.contains(#[trigger] b.subrange(i2 + 4, j));
            assert(s.subrange(i + 4, j + n) == b.subrange(i2 + 4, j));
            assert forall|k: int| i + 4 <= k < j + n implies s[k] != ')' by {
                assert(s[k] == b[k - n]);
            }
            assert(s[j + n] == b[j]);
            assert(first_close_at(s, i + 4, j + n));
        } else {
            assert(s[n - 1] == a.last());
            assert(s[n] == b[0]);
        }
    }
}

/// `var(name)` reads `name` alone.
proof fn lemma_var_read(name: Seq<char>, names: Seq<Seq<char>>)
    requires
        names.contains(name),
        forall|k: int| 0 <= k < name.len() ==> #[trigger] name[k] != '(' && name[k] != ')',
    ensures
        reads_only("var("@ + name + ")"@, names),
{
    reveal(reads_only);
    reveal_strlit("var(");
    reveal_strlit(")");
    let s = "var("@ + name + ")"@;
    let j: int = name.len() as int + 4;
    assert forall|i: int| #[trigger] var_call_at(s, i) implies exists|j: int|
        first_close_at(s, i + 4, j) && names.contains(#[trigger] s.subrange(i + 4, j)) by {
        if i != 0 {
            assert(s[i + 3] == name[i - 1]);
        }
        assert(s.subrange(4, j) == name);
        assert forall|k: int| 4 <= k < j implies s[k] != ')' by {
            assert(s[k] == name[k - 4]);
        }
        assert(first_close_at(s, 4, j));
    }
}

/// Style pieces whose texts each read only `names` and start clean read
/// only `names` together.
proof fn lemma_style_text_reads_only(ps: Seq<(bool, Seq<char>)>, names: Seq<Seq<char>>)
    requires
        forall|k: int| 0 <= k < ps.len() ==> reads_only(#[trigger] style_piece_text(ps[k]), names),
        forall|k: int|
            0 <= k < ps.len() ==> style_piece_text(#[trigger] ps[k]).len() > 0 && style_piece_text(ps[k])[0] != 'a'
                && style_piece_text(ps[k])[0] != 'r' && style_piece_text(ps[k])[0] != '(',
    ensures
        reads_only(style_text(ps), names),
    decreases ps.len(),
{
    reveal(reads_only);
    if ps.len() == 0 {
        assert(style_text(ps) == Seq::<char>::empty());
    } else {
        let d = ps.drop_last();
        assert forall|k: int| 0 <= k < d.len() implies reads_only(#[trigger] style_piece_text(d[k]), names) by {
            assert(d[k] == ps[k]);
        }
        assert forall|k: int|
            0 <= k < d.len() implies style_piece_text(#[trigger] d[k]).len() > 0 && style_piece_text(d[k])[0]
                != 'a' && style_piece_text(d[k])[0] != 'r' && style_piece_text(d[k])[0] != '(' by {
            assert(d[k] == ps[k]);
        }
        lemma_style_text_reads_only(d, names);
        let last = style_piece_text(ps[ps.len() - 1]);
        assert(reads_only(last, names));
        lemma_reads_only_concat(style_text(d), last, names);
    }
}

/// Declarations whose texts each read only `names` and start clean read
/// only `names` together.
proof fn lemma_declarations_text_reads_only(ds: Seq<(Seq<char>, Seq<char>)>, names: Seq<Seq<char>>)
    requires
        forall|k: int| 0 <= k < ds.len() ==> reads_only(#[trigger] declaration_text(ds[k]), names),
        forall|k: int|
            0 <= k < ds.len() ==> declaration_text(#[trigger] ds[k]).len() > 0 && declaration_text(ds[k])[0] != 'a'
                && declaration_text(ds[k])[0] != 'r' && declaration_text(ds[k])[0] != '(',
    ensures
        reads_only(declarations_text(ds), names),
    decreases ds.len(),
{
    reveal(reads_only);
    if ds.len() == 0 {
        assert(declarations_text(ds) == Seq::<char>::empty());
    } else {
        let d = ds.drop_last();
        assert forall|k: int| 0 <= k < d.len() implies reads_only(#[trigger] declaration_text(d[k]), names) by {
            assert(d[k] == ds[k]);
        }
        assert forall|k: int|
            0 <= k < d.len() implies declaration_text(#[trigger] d[k]).len() > 0 && declaration_text(d[k])[0]
                != 'a' && declaration_text(d[k])[0] != 'r' && declaration_text(d[k])[0] != '(' by {
            assert(d[k] == ds[k]);
        }
        lemma_declarations_text_reads_only(d, names);
        let last = declaration_text(ds[ds.len() - 1]);
        lemma_reads_only_concat(declarations_text(d), last, names);
    }
}


/// `s` ends with `t`.
pub open spec fn ends_in(s: Seq<char>, t: Seq<char>) -> bool {
    t.len() <= s.len() && forall|k: int| 0 <= k < t.len() ==> s[s.len() - t.len() + k] == #[trigger] t[k]
}

/// An escaped character holds no `v` and no `(`, and its second to last
/// character is no `a`.
proof fn lemma_escape_char_shape(c: char)
    ensures
        js_escape_char(c) == seq![c] || ({
            let e = js_escape_char(c);
            &&& e.len() >= 2
            &&& forall|k: int| 0 <= k < e.len() ==> #[trigger] e[k] != 'v' && e[k] != '('
            &&& e[e.len() - 2] != 'a'
        }),
{
    let e = js_escape_char(c);
    if c == '"' || c == '\\' || c == '\n' || c == '\r' || c == '\t' {
    } else if escapes_as_unicode(c) {
        let u = c as u32;
        assert(u / 16 <= 9);
        assert(u % 16 < 16);
        assert(hex_char((u / 16) as nat) != 'a' && hex_char((u / 16) as nat) != 'v' && hex_char((u / 16) as nat) != '(');
        assert(hex_char((u % 16) as nat) != 'v' && hex_char((u % 16) as nat) != '(');
    }
}

proof fn lemma_escaped_no_var_call(s: Seq<char>)
    requires
        no_var_call(s),
    ensures
        no_var_call(js_escaped(s)),
        ends_in(js_escaped(s), seq!['v']) ==> ends_in(s, seq!['v']),
        ends_in(js_escaped(s), seq!['v', 'a']) ==> ends_in(s, seq!['v', 'a']),
        ends_in(js_escaped(s), seq!['v', 'a', 'r']) ==> ends_in(s, seq!['v', 'a', 'r']),
    decreases s.len(),
{
    let x = js_escaped(s);
    if s.len() == 0 {
        assert(x.len() == 0);
        assert forall|i: int| !#[trigger] var_call_at(x, i) by {}
    } else {
        let d = s.drop_last();
        let c = s.last();
        let a = js_escaped(d);
        let e = js_escape_char(c);
        let n = a.len() as int;
        let m = d.len() as int;
        assert(x == a + e);
        assert forall|i: int| !#[trigger] var_call_at(d, i) by {
            if var_call_at(d, i) {
                assert(s[i] == d[i] && s[i + 1] == d[i + 1] && s[i + 2] == d[i + 2] && s[i + 3] == d[i + 3]);
                assert(var_call_at(s, i));
            }
        }
        lemma_escaped_no_var_call(d);
        lemma_escape_char_shape(c);
        assert forall|k: int| 0 <= k < m implies s[k] == #[trigger] d[k] by {}
        assert(s[m] == c);
        assert forall|k: int| 0 <= k < n implies x[k] == #[trigger] a[k] by {}
        assert forall|k: int| 0 <= k < e.len() implies x[n + k] == #[trigger] e[k] by {}
        if e == seq![c] {
            if ends_in(x, seq!['v', 'a']) {
                assert(x[n - 1] == 'v');
                assert(ends_in(a, seq!['v']));
                assert(d[m - 1] == 'v');
            }
            if ends_in(x, seq!['v', 'a', 'r']) {
                assert(x[n - 2] == 'v' && x[n - 1] == 'a');
                assert(ends_in(a, seq!['v', 'a']));
                assert(d[m - 2] == 'v' && d[m - 1] == 'a');
            }
            assert forall|i: int| !#[trigger] var_call_at(x, i) by {
                if var_call_at(x, i) {
                    if i + 4 <= n {
                        assert(var_call_at(a, i));
                    } else {
                        assert(i + 3 == n);
                        assert(ends_in(a, seq!['v', 'a', 'r']));
                        assert(d[m - 3] == 'v' && d[m - 2] == 'a' && d[m - 1] == 'r');
                        assert(var_call_at(s, m - 3));
                    }
                }
            }
        } else {
            let l = e.len() as int;
            assert(x[n + l - 1] == e[l - 1]);
            assert(x[n + l - 2] == e[l - 2]);
            assert forall|i: int| !#[trigger] var_call_at(x, i) by {
                if var_call_at(x, i) {
                    if i + 4 <= n {
                        assert(var_call_at(a, i));
                    } else {
                        assert(x[i + 3] == e[i + 3 - n]);
                    }
                }
            }
        }
    }
}

/// A quote with no `var(` gives a literal with no `var(`.
proof fn lemma_literal_no_var_call(s: Seq<char>)
    requires
        no_var_call(s),
    ensures
        no_var_call(js_literal(s)),
        js_literal(s)[0] == '"',
        js_literal(s).last() == '"',
{
    let e = js_escaped(s);
    let l = js_literal(s);
    lemma_escaped_no_var_call(s);
    assert(l == seq!['"'] + e + seq!['"']);
    assert forall|i: int| !#[trigger] var_call_at(l, i) by {
        if var_call_at(l, i) {
            if i == 0 {
                assert(l[0] == '"');
            } else if i + 4 <= l.len() - 1 {
                assert(l[i] == e[i - 1] && l[i + 1] == e[i] && l[i + 2] == e[i + 1] && l[i + 3] == e[i + 2]);
                assert(var_call_at(e, i - 1));
            } else {
                assert(l[l.len() - 1] == '"');
            }
        }
    }
}


/// `s` is not empty, and no `var(` can run from what stands before it into
/// it.
pub open spec fn starts_clean(s: Seq<char>) -> bool {
    s.len() > 0 && s[0] != 'a' && s[0] != 'r' && s[0] != '('
}

/// A value that reads one property: `pre`, `var(name)`, `post`.
proof fn lemma_value_read(pre: Seq<char>, name: Seq<char>, post: Seq<char>, names: Seq<Seq<char>>)
    requires
        no_var_call(pre),
        no_var_call(post),
        pre.len() == 0 || (pre.last() != 'v' && pre.last() != 'a' && pre.last() != 'r'),
        post.len() == 0 || starts_clean(post),
        names.contains(name),
        forall|k: int| 0 <= k < name.len() ==> #[trigger] name[k] != '(' && name[k] != ')',
    ensures
        reads_only(pre + "var("@ + name + ")"@, names),
        reads_only(pre + "var("@ + name + ")"@ + post, names),
{
    reveal_strlit("var(");
    reveal_strlit(")");
    let r = "var("@ + name + ")"@;
    lemma_var_read(name, names);
    assert(r[0] == 'v');
    assert(r.last() == ')');
    lemma_no_var_call_reads_only(pre, names);
    lemma_no_var_call_reads_only(post, names);
    lemma_reads_only_concat(pre, r, names);
    assert(pre + "var("@ + name + ")"@ == pre + r);
    lemma_reads_only_concat(pre + r, post, names);
    assert(pre + "var("@ + name + ")"@ + post == (pre + r) + post);
}

/// A declaration whose name and value read only `names` reads only `names`.
proof fn lemma_declaration_reads_only(d: (Seq<char>, Seq<char>), names: Seq<Seq<char>>)
    requires
        reads_only(d.0, names),
        reads_only(d.1, names),
        d.0.len() > 0,
        d.0[0] == '-',
    ensures
        reads_only(declaration_text(d), names),
        starts_clean(declaration_text(d)),
{
    let colon = seq![':'];
    let semi = seq![';'];
    assert(no_var_call(colon));
    assert(no_var_call(semi));
    lemma_no_var_call_reads_only(colon, names);
    lemma_no_var_call_reads_only(semi, names);
    lemma_reads_only_concat(d.0, colon, names);
    assert((d.0 + colon).last() == ':');
    lemma_reads_only_concat(d.0 + colon, d.1, names);
    lemma_reads_only_concat(d.0 + colon + d.1, semi, names);
    assert(declaration_text(d)[0] == d.0[0]);
}

/// Every declaration of the theme's defaults reads only properties that
/// those defaults declare, and starts clean.
proof fn lemma_theme_declarations_read_declared()
    ensures
        forall|k: int|
            0 <= k < default_declarations().len() ==> reads_only(
                #[trigger] declaration_text(default_declarations()[k]),
                default_property_names(),
            ) && starts_clean(declaration_text(default_declarations()[k])),
{
    reveal_strlit("var(");
    reveal_strlit(")");
    reveal_strlit("--bg");
    reveal_strlit("#05070d");
    reveal_strlit("--fg");
    reveal_strlit("#ffffff");
    reveal_strlit("--accent-cyan");
    reveal_strlit("#39e6ff");
    reveal_strlit("--accent-magenta");
    reveal_strlit("#ff3de6");
    reveal_strlit("--accent-orange");
    reveal_strlit("#ffe3b3");
    reveal_strlit("--glow-cyan-1");
    reveal_strlit("0 0 6px var(--accent-cyan)");
    reveal_strlit("--glow-cyan-2");
    reveal_strlit("0 0 18px var(--accent-cyan)");
    reveal_strlit("--glow-cyan-3");
    reveal_strlit("0 0 40px var(--accent-cyan)");
    reveal_strlit("--glow-magenta-1");
    reveal_strlit("0 0 6px var(--accent-magenta)");
    reveal_strlit("--glow-magenta-2");
    reveal_strlit("0 0 18px var(--accent-magenta)");
    reveal_strlit("--glow-magenta-3");
    reveal_strlit("0 0 40px var(--accent-magenta)");
    reveal_strlit("--font-family");
    reveal_strlit("'JetBrains Mono', 'Fira Code', 'Courier New', monospace");
    reveal_strlit("--font-size");
    reveal_strlit("37px");
    reveal_strlit("--letter-spacing");
    reveal_strlit("0.02em");
    reveal_strlit("--line-height");
    reveal_strlit("1.5");
    reveal_strlit("--max-width");
    reveal_strlit("760px");
    reveal_strlit("--typewriter-ms");
    reveal_strlit("80");
    reveal_strlit("--typewriter-ease");
    reveal_strlit("cubic-bezier(.22,.61,.36,1)");
    reveal_strlit("--typewriter-slide");
    reveal_strlit("38px");
    reveal_strlit("--typewriter-opacity-start");
    reveal_strlit("0");
    reveal_strlit("--typewriter-opacity-end");
    reveal_strlit("1");
    reveal_strlit("--cursor-char");
    reveal_strlit("'▍'");
    reveal_strlit("--cursor-blink");
    reveal_strlit("0.9s");
    reveal_strlit("--cursor-color");
    reveal_strlit("--glitch-intensity");
    reveal_strlit("6px");
    reveal_strlit("--glitch-ms");
    reveal_strlit("6500ms");
    reveal_strlit("--glitch-duration");
    reveal_strlit("500ms");
    reveal_strlit("--glitch-color-cyan");
    reveal_strlit("137px 0 0 var(--accent-cyan)");
    reveal_strlit("--glitch-color-magenta");
    reveal_strlit("-137px 0 0 var(--accent-magenta)");
    reveal_strlit("--glitch-jitter");
    reveal_strlit("1.2px");
    reveal_strlit("--scanline-opacity");
    reveal_strlit("0.30");
    reveal_strlit("--scanline-color");
    reveal_strlit("#000");
    reveal_strlit("--scanline-size");
    reveal_strlit("calc(100vh / 216)");
    reveal_strlit("--scanline-gap");
    reveal_strlit("--scanline-speed");
    reveal_strlit("90s");
    reveal_strlit("--scanline-steps");
    reveal_strlit("2160");
    reveal_strlit("--crt-perspective");
    reveal_strlit("600px");
    reveal_strlit("--crt-radius");
    reveal_strlit("40px");
    reveal_strlit("--crt-vignette-stops");
    reveal_strlit("transparent 0%, transparent 70%, var(--vignette-edge) 100%");
    reveal_strlit("--crt-vignette-blur");
    reveal_strlit("12px");
    reveal_strlit("--vignette-edge");
    reveal_strlit("#02030a");
    reveal_strlit("--center-padding");
    reveal_strlit("36px");
    reveal_strlit("--max-quote-chars");
    reveal_strlit("900");
    let ds = default_declarations();
    let names = default_property_names();
    assert(ds.len() == 43);
    assert forall|k: int| 0 <= k < 43 implies names[k] == ds[k].0 by {}
    assert forall|k: int| 0 <= k < 43 implies reads_only(#[trigger] declaration_text(ds[k]), names)
        && starts_clean(declaration_text(ds[k])) by {
        assert(names.len() == 43);
        assert(names[k] == ds[k].0);
        assert(names.contains(ds[k].0));
        assert(no_var_call(ds[k].0));
        if k == 0 {
            assert(no_var_call(ds[k].1));
            lemma_no_var_call_reads_only(ds[k].1, names);
            lemma_no_var_call_reads_only(ds[k].0, names);
            lemma_declaration_reads_only(ds[k], names);
        } else if k == 1 {
            assert(no_var_call(ds[k].1));
            lemma_no_var_call_reads_only(ds[k].1, names);
            lemma_no_var_call_reads_only(ds[k].0, names);
            lemma_declaration_reads_only(ds[k], names);
        } else if k == 2 {
            assert(no_var_call(ds[k].1));
            lemma_no_var_call_reads_only(ds[k].1, names);
            lemma_no_var_call_reads_only(ds[k].0, names);
            lemma_declaration_reads_only(ds[k], names);
        } else if k == 3 {
            assert(no_var_call(ds[k].1));
            lemma_no_var_call_reads_only(ds[k].1, names);
            lemma_no_var_call_reads_only(ds[k].0, names);
            lemma_declaration_reads_only(ds[k], names);
        } else if k == 4 {
            assert(no_var_call(ds[k].1));
            lemma_no_var_call_reads_only(ds[k].1, names);
            lemma_no_var_call_reads_only(ds[k].0, names);
            lemma_declaration_reads_only(ds[k], names);
        } else if k == 5 {
            reveal_strlit("0 0 6px ");
            assert(no_var_call("0 0 6px "@));
            assert(names[2] == "--accent-cyan"@);
            lemma_value_read("0 0 6px "@, "--accent-cyan"@, Seq::<char>::empty(), names);
            assert(ds[k].1 == "0 0 6px "@ + "var("@ + "--accent-cyan"@ + ")"@);
            lemma_no_var_call_reads_only(ds[k].0, names);
            lemma_declaration_reads_only(ds[k], names);
        } else if k == 6 {
            reveal_strlit("0 0 18px ");
            assert(no_var_call("0 0 18px "@));
            assert(names[2] == "--accent-cyan"@);
            lemma_value_read("0 0 18px "@, "--accent-cyan"@, Seq::<char>::empty(), names);
            assert(ds[k].1 == "0 0 18px "@ + "var("@ + "--accent-cyan"@ + ")"@);
            lemma_no_var_call_reads_only(ds[k].0, names);
            lemma_declaration_reads_only(ds[k], names);
        } else if k == 7 {
            reveal_strlit("0 0 40px ");
            assert(no_var_call("0 0 40px "@));
            assert(names[2] == "--accent-cyan"@);
            lemma_value_read("0 0 40px "@, "--accent-cyan"@, Seq::<char>::empty(), names);
            assert(ds[k].1 == "0 0 40px "@ + "var("@ + "--accent-cyan"@ + ")"@);
            lemma_no_var_call_reads_only(ds[k].0, names);
            lemma_declaration_reads_only(ds[k], names);
        } else if k == 8 {
            reveal_strlit("0 0 6px ");
            assert(no_var_call("0 0 6px "@));
            assert(names[3] == "--accent-magenta"@);
            lemma_value_read("0 0 6px "@, "--accent-magenta"@, Seq::<char>::empty(), names);
            assert(ds[k].1 == "0 0 6px "@ + "var("@ + "--accent-magenta"@ + ")"@);
            lemma_no_var_call_reads_only(ds[k].0, names);
            lemma_declaration_reads_only(ds[k], names);
        } else if k == 9 {
            reveal_strlit("0 0 18px ");
            assert(no_var_call("0 0 18px "@));
            assert(names[3] == "--accent-magenta"@);
            lemma_value_read("0 0 18px "@, "--accent-magenta"@, Seq::<char>::empty(), names);
            assert(ds[k].1 == "0 0 18px "@ + "var("@ + "--accent-magenta"@ + ")"@);
            lemma_no_var_call_reads_only(ds[k].0, names);
            lemma_declaration_reads_only(ds[k], names);
        } else if k == 10 {
            reveal_strlit("0 0 40px ");
            assert(no_var_call("0 0 40px "@));
            assert(names[3] == "--accent-magenta"@);
            lemma_value_read("0 0 40px "@, "--accent-magenta"@, Seq::<char>::empty(), names);
            assert(ds[k].1 == "0 0 40px "@ + "var("@ + "--accent-magenta"@ + ")"@);
            lemma_no_var_call_reads_only(ds[k].0, names);
            lemma_declaration_reads_only(ds[k], names);
        } else if k == 11 {
            assert(no_var_call(ds[k].1));
            lemma_no_var_call_reads_only(ds[k].1, names);
            lemma_no_var_call_reads_only(ds[k].0, names);
            lemma_declaration_reads_only(ds[k], names);
        } else if k == 12 {
            assert(no_var_call(ds[k].1));
            lemma_no_var_call_reads_only(ds[k].1, names);
            lemma_no_var_call_reads_only(ds[k].0, names);
            lemma_declaration_reads_only(ds[k], names);
        } else if k == 13 {
            assert(no_var_call(ds[k].1));
            lemma_no_var_call_reads_only(ds[k].1, names);
            lemma_no_var_call_reads_only(ds[k].0, names);
            lemma_declaration_reads_only(ds[k], names);
        } else if k == 14 {
            assert(no_var_call(ds[k].1));
            lemma_no_var_call_reads_only(ds[k].1, names);
            lemma_no_var_call_reads_only(ds[k].0, names);
            lemma_declaration_reads_only(ds[k], names);
        } else if k == 15 {
            assert(no_var_call(ds[k].1));
            lemma_no_var_call_reads_only(ds[k].1, names);
            lemma_no_var_call_reads_only(ds[k].0, names);
            lemma_declaration_reads_only(ds[k], names);
        } else if k == 16 {
            assert(no_var_call(ds[k].1));
            lemma_no_var_call_reads_only(ds[k].1, names);
            lemma_no_var_call_reads_only(ds[k].0, names);
            lemma_declaration_reads_only(ds[k], names);
        } else if k == 17 {
            assert(no_var_call(ds[k].1));
            lemma_no_var_call_reads_only(ds[k].1, names);
            lemma_no_var_call_reads_only(ds[k].0, names);
            lemma_declaration_reads_only(ds[k], names);
        } else if k == 18 {
            assert(no_var_call(ds[k].1));
            lemma_no_var_call_reads_only(ds[k].1, names);
            lemma_no_var_call_reads_only(ds[k].0, names);
            lemma_declaration_reads_only(ds[k], names);
        } else if k == 19 {
            assert(no_var_call(ds[k].1));
            lemma_no_var_call_reads_only(ds[k].1, names);
            lemma_no_var_call_reads_only(ds[k].0, names);
            lemma_declaration_reads_only(ds[k], names);
        } else if k == 20 {
            assert(no_var_call(ds[k].1));
            lemma_no_var_call_reads_only(ds[k].1, names);
            lemma_no_var_call_reads_only(ds[k].0, names);
            lemma_declaration_reads_only(ds[k], names);
        } else if k == 21 {
            assert(no_var_call(ds[k].1));
            lemma_no_var_call_reads_only(ds[k].1, names);
            lemma_no_var_call_reads_only(ds[k].0, names);
            lemma_declaration_reads_only(ds[k], names);
        } else if k == 22 {
            assert(no_var_call(ds[k].1));
            lemma_no_var_call_reads_only(ds[k].1, names);
            lemma_no_var_call_reads_only(ds[k].0, names);
            lemma_declaration_reads_only(ds[k], names);
        } else if k == 23 {
            assert(no_var_call(ds[k].1));
            lemma_no_var_call_reads_only(ds[k].1, names);
            lemma_no_var_call_reads_only(ds[k].0, names);
            lemma_declaration_reads_only(ds[k], names);
        } else if k == 24 {
            assert(no_var_call(ds[k].1));
            lemma_no_var_call_reads_only(ds[k].1, names);
            lemma_no_var_call_reads_only(ds[k].0, names);
            lemma_declaration_reads_only(ds[k], names);
        } else if k == 25 {
            assert(no_var_call(ds[k].1));
            lemma_no_var_call_reads_only(ds[k].1, names);
            lemma_no_var_call_reads_only(ds[k].0, names);
            lemma_declaration_reads_only(ds[k], names);
        } else if k == 26 {
            assert(no_var_call(ds[k].1));
            lemma_no_var_call_reads_only(ds[k].1, names);
            lemma_no_var_call_reads_only(ds[k].0, names);
            lemma_declaration_reads_only(ds[k], names);
        } else if k == 27 {
            reveal_strlit("137px 0 0 ");
            assert(no_var_call("137px 0 0 "@));
            assert(names[2] == "--accent-cyan"@);
            lemma_value_read("137px 0 0 "@, "--accent-cyan"@, Seq::<char>::empty(), names);
            assert(ds[k].1 == "137px 0 0 "@ + "var("@ + "--accent-cyan"@ + ")"@);
            lemma_no_var_call_reads_only(ds[k].0, names);
            lemma_declaration_reads_only(ds[k], names);
        } else if k == 28 {
            reveal_strlit("-137px 0 0 ");
            assert(no_var_call("-137px 0 0 "@));
            assert(names[3] == "--accent-magenta"@);
            lemma_value_read("-137px 0 0 "@, "--accent-magenta"@, Seq::<char>::empty(), names);
            assert(ds[k].1 == "-137px 0 0 "@ + "var("@ + "--accent-magenta"@ + ")"@);
            lemma_no_var_call_reads_only(ds[k].0, names);
            lemma_declaration_reads_only(ds[k], names);
        } else if k == 29 {
            assert(no_var_call(ds[k].1));
            lemma_no_var_call_reads_only(ds[k].1, names);
            lemma_no_var_call_reads_only(ds[k].0, names);
            lemma_declaration_reads_only(ds[k], names);
        } else if k == 30 {
            assert(no_var_call(ds[k].1));
            lemma_no_var_call_reads_only(ds[k].1, names);
            lemma_no_var_call_reads_only(ds[k].0, names);
            lemma_declaration_reads_only(ds[k], names);
        } else if k == 31 {
            assert(no_var_call(ds[k].1));
            lemma_no_var_call_reads_only(ds[k].1, names);
            lemma_no_var_call_reads_only(ds[k].0, names);
            lemma_declaration_reads_only(ds[k], names);
        } else if k == 32 {
            assert(no_var_call(ds[k].1));
            lemma_no_var_call_reads_only(ds[k].1, names);
            lemma_no_var_call_reads_only(ds[k].0, names);
            lemma_declaration_reads_only(ds[k], names);
        } else if k == 33 {
            assert(no_var_call(ds[k].1));
            lemma_no_var_call_reads_only(ds[k].1, names);
            lemma_no_var_call_reads_only(ds[k].0, names);
            lemma_declaration_reads_only(ds[k], names);
        } else if k == 34 {
            assert(no_var_call(ds[k].1));
            lemma_no_var_call_reads_only(ds[k].1, names);
            lemma_no_var_call_reads_only(ds[k].0, names);
            lemma_declaration_reads_only(ds[k], names);
        } else if k == 35 {
            assert(no_var_call(ds[k].1));
            lemma_no_var_call_reads_only(ds[k].1, names);
            lemma_no_var_call_reads_only(ds[k].0, names);
            lemma_declaration_reads_only(ds[k], names);
        } else if k == 36 {
            assert(no_var_call(ds[k].1));
            lemma_no_var_call_reads_only(ds[k].1, names);
            lemma_no_var_call_reads_only(ds[k].0, names);
            lemma_declaration_reads_only(ds[k], names);
        } else if k == 37 {
            assert(no_var_call(ds[k].1));
            lemma_no_var_call_reads_only(ds[k].1, names);
            lemma_no_var_call_reads_only(ds[k].0, names);
            lemma_declaration_reads_only(ds[k], names);
        } else if k == 38 {
            reveal_strlit("transparent 0%, transparent 70%, ");
            reveal_strlit(" 100%");
            assert(no_var_call("transparent 0%, transparent 70%, "@));
            assert(no_var_call(" 100%"@));
            assert(names[40] == "--vignette-edge"@);
            lemma_value_read("transparent 0%, transparent 70%, "@, "--vignette-edge"@, " 100%"@, names);
            assert(ds[k].1 == "transparent 0%, transparent 70%, "@ + "var("@ + "--vignette-edge"@ + ")"@ + " 100%"@);
            lemma_no_var_call_reads_only(ds[k].0, names);
            lemma_declaration_reads_only(ds[k], names);
        } else if k == 39 {
            assert(no_var_call(ds[k].1));
            lemma_no_var_call_reads_only(ds[k].1, names);
            lemma_no_var_call_reads_only(ds[k].0, names);
            lemma_declaration_reads_only(ds[k], names);
        } else if k == 40 {
            assert(no_var_call(ds[k].1));
            lemma_no_var_call_reads_only(ds[k].1, names);
            lemma_no_var_call_reads_only(ds[k].0, names);
            lemma_declaration_reads_only(ds[k], names);
        } else if k == 41 {
            assert(no_var_call(ds[k].1));
            lemma_no_var_call_reads_only(ds[k].1, names);
            lemma_no_var_call_reads_only(ds[k].0, names);
            lemma_declaration_reads_only(ds[k], names);
        } else if k == 42 {
            assert(no_var_call(ds[k].1));
            lemma_no_var_call_reads_only(ds[k].1, names);
            lemma_no_var_call_reads_only(ds[k].0, names);
            lemma_declaration_reads_only(ds[k], names);
        }
    }
}


/// The shape of a style piece: a `var(..)` piece names a property without
/// brackets; any other piece holds no `var(` and starts clean.
pub open spec fn piece_shape(p: (bool, Seq<char>)) -> bool {
    if p.0 {
        forall|k: int| 0 <= k < p.1.len() ==> #[trigger] p.1[k] != '(' && p.1[k] != ')'
    } else {
        no_var_call(p.1) && starts_clean(p.1)
    }
}

proof fn lemma_style_pieces_1_shape()
    ensures
        forall|k: int| 0 <= k < style_pieces_1().len() ==> piece_shape(#[trigger] style_pieces_1()[k]),
{
    let ps = style_pieces_1();
    assert(ps.len() == 16);
    assert forall|k: int| 0 <= k < ps.len() implies piece_shape(#[trigger] ps[k]) by {
        if k == 0 {
            reveal_strlit(r#"
}

* { box-sizing: border-box; }

html, body {
  margin: 0; padding: 0;
  height: 100%; width: 100%;
  background: "#);
        } else if k == 1 {
            reveal_strlit(r#"--bg"#);
        } else if k == 2 {
            reveal_strlit(r#";
  color: "#);
        } else if k == 3 {
            reveal_strlit(r#"--fg"#);
        } else if k == 4 {
            reveal_strlit(r#";
  font-family: "#);
        } else if k == 5 {
            reveal_strlit(r#"--font-family"#);
        } else if k == 6 {
            reveal_strlit(r#";
  overflow: hidden;
  -webkit-font-smoothing: antialiased;
  -moz-osx-font-smoothing: grayscale;
}

/* ---- CRT vignette ---- */
body {
  display: flex;
  align-items: center;
  justify-content: center;
  border-radius: "#);
        } else if k == 7 {
            reveal_strlit(r#"--crt-radius"#);
        } else if k == 8 {
            reveal_strlit(r#";
  perspective: "#);
        } else if k == 9 {
            reveal_strlit(r#"--crt-perspective"#);
        } else if k == 10 {
            reveal_strlit(r#";
  overflow: hidden;
  position: relative;
}

body::before {
  content: "";
  position: absolute;
  inset: 0;
  border-radius: "#);
        } else if k == 11 {
            reveal_strlit(r#"--crt-radius"#);
        } else if k == 12 {
            reveal_strlit(r#";
  background:
    radial-gradient(circle at center, "#);
        } else if k == 13 {
            reveal_strlit(r#"--crt-vignette-stops"#);
        } else if k == 14 {
            reveal_strlit(r#"),
    radial-gradient(circle at center,
      transparent 0%, transparent 70%, rgba(2,3,10,0.16) 100%
    );
  filter: blur("#);
        } else if k == 15 {
            reveal_strlit(r#"--crt-vignette-blur"#);
        }
    }
}

proof fn lemma_style_pieces_2_shape()
    ensures
        forall|k: int| 0 <= k < style_pieces_2().len() ==> piece_shape(#[trigger] style_pieces_2()[k]),
{
    let ps = style_pieces_2();
    assert(ps.len() == 16);
    assert forall|k: int| 0 <= k < ps.len() implies piece_shape(#[trigger] ps[k]) by {
        if k == 0 {
            reveal_strlit(r#");
  pointer-events: none;
  z-index: 5;
}

/* ---- scanline overlay ---- */
body::after {
  content: "";
  position: absolute;
  top: -100vh;
  left: 0;
  right: 0;
  height: 200vh;
  background: repeating-linear-gradient(
    to bottom,
    "#);
        } else if k == 1 {
            reveal_strlit(r#"--scanline-color"#);
        } else if k == 2 {
            reveal_strlit(r#" 0px,
    "#);
        } else if k == 3 {
            reveal_strlit(r#"--scanline-color"#);
        } else if k == 4 {
            reveal_strlit(r#" "#);
        } else if k == 5 {
            reveal_strlit(r#"--scanline-size"#);
        } else if k == 6 {
            reveal_strlit(r#",
    transparent "#);
        } else if k == 7 {
            reveal_strlit(r#"--scanline-size"#);
        } else if k == 8 {
            reveal_strlit(r#",
    transparent calc("#);
        } else if k == 9 {
            reveal_strlit(r#"--scanline-size"#);
        } else if k == 10 {
            reveal_strlit(r#" + "#);
        } else if k == 11 {
            reveal_strlit(r#"--scanline-gap"#);
        } else if k == 12 {
            reveal_strlit(r#")
  );
  opacity: "#);
        } else if k == 13 {
            reveal_strlit(r#"--scanline-opacity"#);
        } else if k == 14 {
            reveal_strlit(r#";
  pointer-events: none;
  z-index: 7;
  will-change: transform;
  animation: scanline-sweep "#);
        } else if k == 15 {
            reveal_strlit(r#"--scanline-speed"#);
        }
    }
}

proof fn lemma_style_pieces_3_shape()
    ensures
        forall|k: int| 0 <= k < style_pieces_3().len() ==> piece_shape(#[trigger] style_pieces_3()[k]),
{
    let ps = style_pieces_3();
    assert(ps.len() == 16);
    assert forall|k: int| 0 <= k < ps.len() implies piece_shape(#[trigger] ps[k]) by {
        if k == 0 {
            reveal_strlit(r#" steps("#);
        } else if k == 1 {
            reveal_strlit(r#"--scanline-steps"#);
        } else if k == 2 {
            reveal_strlit(r#") infinite;
}

@keyframes scanline-sweep {
  0% { transform: translateY(0); }
  100% { transform: translateY(100vh); }
}

/* ---- quote stage ---- */
.stage {
  --glitch-every: "#);
        } else if k == 3 {
            reveal_strlit(r#"--glitch-ms"#);
        } else if k == 4 {
            reveal_strlit(r#";
  position: relative;
  z-index: 4;
  padding: "#);
        } else if k == 5 {
            reveal_strlit(r#"--center-padding"#);
        } else if k == 6 {
            reveal_strlit(r#";
  max-width: "#);
        } else if k == 7 {
            reveal_strlit(r#"--max-width"#);
        } else if k == 8 {
            reveal_strlit(r#";
  width: 92%;
  text-align: left;
}

/* author line */
.author {
  margin-top: 26px;
  opacity: 0;
  animation: author-fade 0.8s "#);
        } else if k == 9 {
            reveal_strlit(r#"--typewriter-ease"#);
        } else if k == 10 {
            reveal_strlit(r#" 200ms forwards;
  font-size: calc("#);
        } else if k == 11 {
            reveal_strlit(r#"--font-size"#);
        } else if k == 12 {
            reveal_strlit(r#" * 0.55);
  letter-spacing: 0.18em;
  text-transform: uppercase;
  color: "#);
        } else if k == 13 {
            reveal_strlit(r#"--accent-orange"#);
        } else if k == 14 {
            reveal_strlit(r#";
text-shadow:
    0 0 7px rgba(255, 160, 40, 0.9),
    0 0 18px rgba(255, 130, 10, 0.7),
    0 0 36px rgba(255, 100, 0, 0.55),
    0 0 68px rgba(255, 90, 0, 0.4),
    0 0 120px rgba(255, 80, 0, 0.3);
}

@keyframes author-fade {
  0% { opacity: 0; transform: translateY(8px); }
  100% { opacity: 0.85; transform: translateY(0); }
}

/* quote text — each span is one letter */
.quote {
  display: block;
  font-size: "#);
        } else if k == 15 {
            reveal_strlit(r#"--font-size"#);
        }
    }
}

proof fn lemma_style_pieces_4_shape()
    ensures
        forall|k: int| 0 <= k < style_pieces_4().len() ==> piece_shape(#[trigger] style_pieces_4()[k]),
{
    let ps = style_pieces_4();
    assert(ps.len() == 16);
    assert forall|k: int| 0 <= k < ps.len() implies piece_shape(#[trigger] ps[k]) by {
        if k == 0 {
            reveal_strlit(r#";
  letter-spacing: "#);
        } else if k == 1 {
            reveal_strlit(r#"--letter-spacing"#);
        } else if k == 2 {
            reveal_strlit(r#";
  line-height: "#);
        } else if k == 3 {
            reveal_strlit(r#"--line-height"#);
        } else if k == 4 {
            reveal_strlit(r#";
  color: "#);
        } else if k == 5 {
            reveal_strlit(r#"--fg"#);
        } else if k == 6 {
            reveal_strlit(r#";
  text-shadow:
    "#);
        } else if k == 7 {
            reveal_strlit(r#"--glow-cyan-1"#);
        } else if k == 8 {
            reveal_strlit(r#",
    "#);
        } else if k == 9 {
            reveal_strlit(r#"--glow-cyan-2"#);
        } else if k == 10 {
            reveal_strlit(r#",
    "#);
        } else if k == 11 {
            reveal_strlit(r#"--glow-cyan-3"#);
        } else if k == 12 {
            reveal_strlit(r#",
    "#);
        } else if k == 13 {
            reveal_strlit(r#"--glow-magenta-1"#);
        } else if k == 14 {
            reveal_strlit(r#",
    "#);
        } else if k == 15 {
            reveal_strlit(r#"--glow-magenta-2"#);
        }
    }
}

proof fn lemma_style_pieces_5_shape()
    ensures
        forall|k: int| 0 <= k < style_pieces_5().len() ==> piece_shape(#[trigger] style_pieces_5()[k]),
{
    let ps = style_pieces_5();
    assert(ps.len() == 16);
    assert forall|k: int| 0 <= k < ps.len() implies piece_shape(#[trigger] ps[k]) by {
        if k == 0 {
            reveal_strlit(r#";
  will-change: transform, opacity;
  margin: 0;
}

/* per-letter typewriter reveal: slide-from-below + fade */
.quote .word {
  display: inline-block;
  white-space: nowrap;
}

.quote .letter {
  display: inline-block;
  white-space: pre;
  opacity: "#);
        } else if k == 1 {
            reveal_strlit(r#"--typewriter-opacity-start"#);
        } else if k == 2 {
            reveal_strlit(r#";
  transform: translateY("#);
        } else if k == 3 {
            reveal_strlit(r#"--typewriter-slide"#);
        } else if k == 4 {
            reveal_strlit(r#");
  animation: slide-up "#);
        } else if k == 5 {
            reveal_strlit(r#"--typewriter-ms"#);
        } else if k == 6 {
            reveal_strlit(r#" "#);
        } else if k == 7 {
            reveal_strlit(r#"--typewriter-ease"#);
        } else if k == 8 {
            reveal_strlit(r#" both;
  animation-delay: 0ms;
  /* delay is applied inline by JS for per-letter staggering */
text-shadow:
    0 0 6px rgba(255, 255, 255, 0.85),
    0 0 14px rgba(255, 255, 255, 0.65),
    0 0 28px rgba(255, 255, 255, 0.45),
    0 0 52px rgba(255, 255, 255, 0.3);
}

.quote .letter.revealed {
  opacity: "#);
        } else if k == 9 {
            reveal_strlit(r#"--typewriter-opacity-end"#);
        } else if k == 10 {
            reveal_strlit(r#";
  transform: translateY(0);
text-shadow:
    0 0 3px rgba(255, 255, 255, 0.65),
    0 0 8px rgba(255, 255, 255, 0.4),
    0 0 14px rgba(255, 255, 255, 0.2);
}

@keyframes slide-up {
  0% {
    opacity: "#);
        } else if k == 11 {
            reveal_strlit(r#"--typewriter-opacity-start"#);
        } else if k == 12 {
            reveal_strlit(r#";
    transform: translateY("#);
        } else if k == 13 {
            reveal_strlit(r#"--typewriter-slide"#);
        } else if k == 14 {
            reveal_strlit(r#");
  }
  100% {
    opacity: "#);
        } else if k == 15 {
            reveal_strlit(r#"--typewriter-opacity-end"#);
        }
    }
}

proof fn lemma_style_pieces_6_shape()
    ensures
        forall|k: int| 0 <= k < style_pieces_6().len() ==> piece_shape(#[trigger] style_pieces_6()[k]),
{
    let ps = style_pieces_6();
    assert(ps.len() == 16);
    assert forall|k: int| 0 <= k < ps.len() implies piece_shape(#[trigger] ps[k]) by {
        if k == 0 {
            reveal_strlit(r#";
    transform: translateY(0);
  }
}

/* ---- full-text glitch: RGB split + heavy jitter + negative snap-back ---- */
.stage.glitch {
  animation: glitch-full "#);
        } else if k == 1 {
            reveal_strlit(r#"--glitch-duration"#);
        } else if k == 2 {
            reveal_strlit(r#" ease-in-out both;
}

@keyframes glitch-full {
  0%   { transform: translateX(0); filter: none; text-shadow: none; clip-path: none; }
  10%  { transform: translateX(-36px); filter: none; text-shadow: "#);
        } else if k == 3 {
            reveal_strlit(r#"--glitch-color-cyan"#);
        } else if k == 4 {
            reveal_strlit(r#"; clip-path: inset(20% 0 55% 0); }
  20%  { transform: translateX(42px); filter: none; text-shadow: none; clip-path: inset(55% 0 10% 0); }
  30%  { transform: translateX(-40px); filter: none; text-shadow: "#);
        } else if k == 5 {
            reveal_strlit(r#"--glitch-color-magenta"#);
        } else if k == 6 {
            reveal_strlit(r#"; clip-path: inset(8% 0 68% 0); }
  40%  { transform: translateX(36px); filter: none; text-shadow: "#);
        } else if k == 7 {
            reveal_strlit(r#"--glitch-color-cyan"#);
        } else if k == 8 {
            reveal_strlit(r#", "#);
        } else if k == 9 {
            reveal_strlit(r#"--glitch-color-magenta"#);
        } else if k == 10 {
            reveal_strlit(r#", 0 0 7px "#);
        } else if k == 11 {
            reveal_strlit(r#"--accent-cyan"#);
        } else if k == 12 {
            reveal_strlit(r#", 0 0 7px "#);
        } else if k == 13 {
            reveal_strlit(r#"--accent-magenta"#);
        } else if k == 14 {
            reveal_strlit(r#"; clip-path: inset(35% 0 42% 0); }
  50%  { transform: translateX(-48px); filter: none; text-shadow: none; clip-path: inset(0 0 0 0); }
  60%  { transform: translateX(44px); filter: none; text-shadow: "#);
        } else if k == 15 {
            reveal_strlit(r#"--glitch-color-cyan"#);
        }
    }
}

proof fn lemma_style_pieces_7_shape()
    ensures
        forall|k: int| 0 <= k < style_pieces_7().len() ==> piece_shape(#[trigger] style_pieces_7()[k]),
{
    let ps = style_pieces_7();
    assert(ps.len() == 16);
    assert forall|k: int| 0 <= k < ps.len() implies piece_shape(#[trigger] ps[k]) by {
        if k == 0 {
            reveal_strlit(r#"; clip-path: inset(62% 0 8% 0); }
  70%  { transform: translateX(-32px); filter: invert(1); text-shadow: none; clip-path: inset(18% 0 58% 0); }
  80%  { transform: translateX(30px); filter: invert(1); text-shadow: "#);
        } else if k == 1 {
            reveal_strlit(r#"--glitch-color-cyan"#);
        } else if k == 2 {
            reveal_strlit(r#", "#);
        } else if k == 3 {
            reveal_strlit(r#"--glitch-color-magenta"#);
        } else if k == 4 {
            reveal_strlit(r#"; clip-path: inset(42% 0 30% 0); }
  90%  { transform: translateX(-14px); filter: none; text-shadow: none; clip-path: inset(0 0 0 0); }
  95%  { transform: translateX("#);
        } else if k == 5 {
            reveal_strlit(r#"--glitch-intensity"#);
        } else if k == 6 {
            reveal_strlit(r#") translateY("#);
        } else if k == 7 {
            reveal_strlit(r#"--glitch-jitter"#);
        } else if k == 8 {
            reveal_strlit(r#"); filter: none; text-shadow: none; clip-path: none; }
  100% { transform: translateX(0); filter: none; text-shadow: none; clip-path: none; }
}

/* ---- blinking cursor ---- */
.cursor {
  display: inline-block;
  font-family: "#);
        } else if k == 9 {
            reveal_strlit(r#"--font-family"#);
        } else if k == 10 {
            reveal_strlit(r#";
  font-size: "#);
        } else if k == 11 {
            reveal_strlit(r#"--font-size"#);
        } else if k == 12 {
            reveal_strlit(r#";
  color: "#);
        } else if k == 13 {
            reveal_strlit(r#"--cursor-color"#);
        } else if k == 14 {
            reveal_strlit(r#";
  content: "#);
        } else if k == 15 {
            reveal_strlit(r#"--cursor-char"#);
        }
    }
}

proof fn lemma_style_pieces_8_shape()
    ensures
        forall|k: int| 0 <= k < style_pieces_8().len() ==> piece_shape(#[trigger] style_pieces_8()[k]),
{
    let ps = style_pieces_8();
    assert(ps.len() == 15);
    assert forall|k: int| 0 <= k < ps.len() implies piece_shape(#[trigger] ps[k]) by {
        if k == 0 {
            reveal_strlit(r#";
  /* character driven by --cursor-char, applied inline by JS */
  animation: cursor-blink "#);
        } else if k == 1 {
            reveal_strlit(r#"--cursor-blink"#);
        } else if k == 2 {
            reveal_strlit(r#" steps(2) infinite;
  vertical-align: middle;
  margin-left: 2px;
  text-shadow: 0 0 6px "#);
        } else if k == 3 {
            reveal_strlit(r#"--cursor-color"#);
        } else if k == 4 {
            reveal_strlit(r#";
}

@keyframes cursor-blink {
  0%, 49% { opacity: 1; }
  50%, 100% { opacity: 0; }
}

/* ---- fade transitions for quote cycling ---- */
.stage.fade-out .quote,
.stage.fade-out .author {
  animation: fade-out 500ms "#);
        } else if k == 5 {
            reveal_strlit(r#"--typewriter-ease"#);
        } else if k == 6 {
            reveal_strlit(r#" forwards;
}
.stage.fade-in .quote {
  animation: fade-in 600ms "#);
        } else if k == 7 {
            reveal_strlit(r#"--typewriter-ease"#);
        } else if k == 8 {
            reveal_strlit(r#" 80ms both;
}
.stage.fade-in .author {
  animation: fade-in-author 600ms "#);
        } else if k == 9 {
            reveal_strlit(r#"--typewriter-ease"#);
        } else if k == 10 {
            reveal_strlit(r#" 260ms both;
}

@keyframes fade-out {
  0% { opacity: "#);
        } else if k == 11 {
            reveal_strlit(r#"--typewriter-opacity-end"#);
        } else if k == 12 {
            reveal_strlit(r#"; transform: translateY(0); filter: blur(0px); }
  100% { opacity: 0; transform: translateY(-8px); filter: blur(2px); }
}
@keyframes fade-in {
  0% { opacity: 0; transform: translateY(12px); filter: blur(3px); }
  100% { opacity: "#);
        } else if k == 13 {
            reveal_strlit(r#"--typewriter-opacity-end"#);
        } else if k == 14 {
            reveal_strlit(r#"; transform: translateY(0); filter: blur(0px); }
}
@keyframes fade-in-author {
  0% { opacity: 0; transform: translateY(8px); }
  100% { opacity: 0.85; transform: translateY(0); }
}
</style>
"#);
        }
    }
}

proof fn lemma_style_pieces_shape()
    ensures
        forall|k: int| 0 <= k < style_pieces().len() ==> piece_shape(#[trigger] style_pieces()[k]),
{
    lemma_style_pieces_1_shape();
    lemma_style_pieces_2_shape();
    lemma_style_pieces_3_shape();
    lemma_style_pieces_4_shape();
    lemma_style_pieces_5_shape();
    lemma_style_pieces_6_shape();
    lemma_style_pieces_7_shape();
    lemma_style_pieces_8_shape();
    let ps = style_pieces();
    assert forall|k: int| 0 <= k < ps.len() implies piece_shape(#[trigger] ps[k]) by {
        let p1 = style_pieces_1();
        let p2 = p1 + style_pieces_2();
        let p3 = p2 + style_pieces_3();
        let p4 = p3 + style_pieces_4();
        let p5 = p4 + style_pieces_5();
        let p6 = p5 + style_pieces_6();
        let p7 = p6 + style_pieces_7();
        if k < p1.len() {
            assert(ps[k] == p1[k]);
        } else if k < p2.len() {
            assert(ps[k] == style_pieces_2()[k - p1.len()]);
        } else if k < p3.len() {
            assert(ps[k] == style_pieces_3()[k - p2.len()]);
        } else if k < p4.len() {
            assert(ps[k] == style_pieces_4()[k - p3.len()]);
        } else if k < p5.len() {
            assert(ps[k] == style_pieces_5()[k - p4.len()]);
        } else if k < p6.len() {
            assert(ps[k] == style_pieces_6()[k - p5.len()]);
        } else if k < p7.len() {
            assert(ps[k] == style_pieces_7()[k - p6.len()]);
        } else {
            assert(ps[k] == style_pieces_8()[k - p7.len()]);
        }
    }
}

/// The page's style rules read only properties that the theme's defaults
/// declare.
proof fn lemma_style_text_reads_declared()
    ensures
        reads_only(style_text(style_pieces()), default_property_names()),
        starts_clean(style_text(style_pieces())),
{
    reveal_strlit("var(");
    let ps = style_pieces();
    let names = default_property_names();
    lemma_style_pieces_shape();
    crate::cyberhtml::lemma_style_reads_declared_properties();
    assert forall|k: int| 0 <= k < ps.len() implies reads_only(#[trigger] style_piece_text(ps[k]), names)
        && starts_clean(style_piece_text(ps[k])) by {
        assert(piece_shape(ps[k]));
        if ps[k].0 {
            lemma_var_read(ps[k].1, names);
            assert(style_piece_text(ps[k])[0] == 'v');
        } else {
            lemma_no_var_call_reads_only(ps[k].1, names);
        }
    }
    lemma_style_text_reads_only(ps, names);
    assert(ps.len() > 0);
    lemma_style_text_first(ps);
}

proof fn lemma_style_text_first(ps: Seq<(bool, Seq<char>)>)
    requires
        ps.len() > 0,
        forall|k: int| 0 <= k < ps.len() ==> style_piece_text(#[trigger] ps[k]).len() > 0,
    ensures
        style_text(ps).len() > 0,
        style_text(ps)[0] == style_piece_text(ps[0])[0],
    decreases ps.len(),
{
    let d = ps.drop_last();
    if d.len() > 0 {
        assert forall|k: int| 0 <= k < d.len() implies style_piece_text(#[trigger] d[k]).len() > 0 by {
            assert(d[k] == ps[k]);
        }
        lemma_style_text_first(d);
        assert(d[0] == ps[0]);
    } else {
        assert(style_text(d) == Seq::<char>::empty());
        assert(style_text(ps) == style_piece_text(ps[0]));
    }
    assert(ps.last() == ps[ps.len() - 1]);
}

/// The page's fixed text holds no `var(`, and each of its parts starts
/// clean.
proof fn lemma_page_text_shape()
    ensures
        no_var_call(PAGE_DOCTYPE@) && starts_clean(PAGE_DOCTYPE@),
        no_var_call(PAGE_HEAD@) && starts_clean(PAGE_HEAD@),
        no_var_call(PAGE_SCRIPT_HEAD@) && starts_clean(PAGE_SCRIPT_HEAD@),
        no_var_call(QUOTE_TEXT_DECLARATION@) && starts_clean(QUOTE_TEXT_DECLARATION@),
        no_var_call(STATEMENT_END@) && starts_clean(STATEMENT_END@),
        no_var_call(NEXT_DECLARATION@) && starts_clean(NEXT_DECLARATION@),
        no_var_call(QUOTE_AUTHOR_DECLARATION@) && starts_clean(QUOTE_AUTHOR_DECLARATION@),
        no_var_call(CYCLE_MINUTES_DECLARATION@) && starts_clean(CYCLE_MINUTES_DECLARATION@),
        no_var_call(PAGE_SCRIPT_BODY@) && starts_clean(PAGE_SCRIPT_BODY@),
        no_var_call(CYCLE_TEST@) && starts_clean(CYCLE_TEST@),
        no_var_call(PAGE_SCRIPT_TAIL@) && starts_clean(PAGE_SCRIPT_TAIL@),
        no_var_call(PAGE_END@) && starts_clean(PAGE_END@),
{
    reveal_strlit("<!doctype html>");
    reveal_strlit(r#"
<html lang="en">
<head>
<meta charset="utf-8">
<meta name="viewport" content="width=device-width, initial-scale=1">
<title>cyberquote</title>
<style>
:root {
  "#);
    reveal_strlit(r#"<script>
(function () {
  "use strict";

  // Wait for DOM to be ready before accessing elements
  function init() {

    var stage = document.getElementById("stage");
    var quoteEl = document.getElementById("quote");
    var authorEl = document.getElementById("author");

    // ---- quote data (injected by Rust) ----
    "#);
    reveal_strlit("var QUOTE_TEXT = ");
    reveal_strlit(";");
    reveal_strlit("\n    ");
    reveal_strlit("var QUOTE_AUTHOR = ");
    reveal_strlit("var CYCLE_MINUTES = ");
    reveal_strlit(r#"

    // ---- letter typewriter ----
    function renderQuote(text, author) {
      // split into words; wraps happen only at spaces, never mid-word
      var letters = [];

      quoteEl.innerHTML = "";

      var words = text.split(" ");
      for (var w = 0; w < words.length; w++) {
        var wordSpan = document.createElement("span");
        wordSpan.className = "word";
        for (var c = 0; c < words[w].length; c++) {
          var letter = document.createElement("span");
          letter.className = "letter";
          letter.textContent = words[w].charAt(c);
          wordSpan.appendChild(letter);
          letters.push(letter);
        }
        quoteEl.appendChild(wordSpan);
        if (w < words.length - 1) {
          var space = document.createElement("span");
          space.className = "letter space";
          space.textContent = " ";
          quoteEl.appendChild(space);
          letters.push(space);
        }
      }

      // build cursor — strip surrounding CSS string quotes from --cursor-char
      var rawChar = getComputedStyle(document.documentElement)
        .getPropertyValue("--cursor-char").trim();
      if ((rawChar.charAt(0) === "'" && rawChar.charAt(rawChar.length - 1) === "'") ||
          (rawChar.charAt(0) === '"' && rawChar.charAt(rawChar.length - 1) === '"')) {
        rawChar = rawChar.slice(1, -1);
      }
      var cursor = document.createElement("span");
      cursor.className = "cursor";
      cursor.textContent = rawChar || "\u258D";

      quoteEl.insertBefore(cursor, quoteEl.firstChild);

      // move cursor forward after each letter finishes its reveal animation
      for (var m = 0; m < letters.length; m++) {
        (function (letter) {
          function onReveal() {
            letter.removeEventListener("animationend", onReveal);
            letter.parentNode.insertBefore(cursor, letter.nextSibling);
          }
          letter.addEventListener("animationend", onReveal);
        }(letters[m]));
      }

      // per-letter delay: stagger evenly so longer quotes still feel alive
      var baseMs = parseFloat(getComputedStyle(document.documentElement)
        .getPropertyValue("--typewriter-ms")) || 80;

      for (var k = 0; k < letters.length; k++) {
        letters[k].style.animationDelay = (k * baseMs) + "ms";
      }

      // author
      authorEl.textContent = "\u2014 " + author;
    }

    // ---- single quote load ----
    renderQuote(QUOTE_TEXT, QUOTE_AUTHOR);

    // ---- cycling ----
    var cycleTimer = null;
    "#);
    reveal_strlit("if (CYCLE_MINUTES > 0)");
    reveal_strlit(r#" {
      cycleTimer = setInterval(cycle, CYCLE_MINUTES * 60 * 1000);
    }

    function cycle() {
      if (stage.classList.contains("fade-out")) return;
      stage.classList.add("fade-out");
      setTimeout(function () {
        renderQuote(QUOTE_TEXT, QUOTE_AUTHOR);
        stage.classList.remove("fade-out");
        stage.classList.add("fade-in");
        setTimeout(function () {
          stage.classList.remove("fade-in");
        }, 1200);
      }, 520);
    }

    // ---- random full-text glitch ----
    function randomBetween(min, max) {
      return min + Math.random() * (max - min);
    }

    function scheduleGlitch() {
      setTimeout(triggerGlitch, randomBetween(3000, 25000));
    }

    function triggerGlitch() {
      if (stage.classList.contains("fade-out")) return scheduleGlitch();
      stage.classList.add("glitch");
      var durMs = parseFloat(getComputedStyle(document.documentElement)
        .getPropertyValue("--glitch-duration")) + 40;
      setTimeout(function () {
        stage.classList.remove("glitch");
        scheduleGlitch();
      }, durMs);
    }

    scheduleGlitch();
  }

  if (document.readyState === "loading") {
    document.addEventListener("DOMContentLoaded", init);
  } else {
    init();
  }
})();
</script>
</head>
<body>
  <div class="stage" id="stage">
    <div class="quote" id="quote"><span class="cursor"></span></div>
    <div class="author" id="author"></div>
  </div>

</body>
"#);
    reveal_strlit("</html>");
}

/// The decimal text of `n` holds no `var(` and starts clean.
proof fn lemma_decimal_shape(n: nat)
    ensures
        no_var_call(decimal(n)),
        starts_clean(decimal(n)),
{
    lemma_lacks_decimal(n, 'a');
    lemma_lacks_decimal(n, 'r');
    lemma_lacks_decimal(n, '(');
    assert(decimal(n).len() > 0);
    assert forall|i: int| !#[trigger] var_call_at(decimal(n), i) by {
        if var_call_at(decimal(n), i) {
            assert(decimal(n)[i + 3] == '(');
        }
    }
}

/// Each `var(v)` of a page built with the theme's defaults, for a quote
/// whose text and author hold no `var(`, names a property that the defaults
/// declare: no custom property the page reads is left without a value.
pub proof fn lemma_page_reads_declared_properties(text: Seq<char>, author: Seq<char>, cycle: nat, v: Seq<char>)
    requires
        no_var_call(text),
        no_var_call(author),
        forall|k: int| 0 <= k < v.len() ==> #[trigger] v[k] != ')',
        occurs_in(
            "var("@ + v + ")"@,
            html_document(
                css_block(declarations_text(default_declarations())),
                js_literal(text),
                js_literal(author),
                decimal(cycle),
            ),
        ),
    ensures
        default_property_names().contains(v),
{
    reveal(reads_only);
    let names = default_property_names();
    let css = css_block(declarations_text(default_declarations()));
    let t = js_literal(text);
    let a = js_literal(author);
    let c = decimal(cycle);
    let page = html_document(css, t, a, c);
    lemma_page_reads_only(text, author, cycle);
    reveal_strlit("var(");
    reveal_strlit(")");
    let w = "var("@ + v + ")"@;
    let i = choose|i: int| 0 <= i && i + w.len() <= page.len() && #[trigger] page.subrange(i, i + w.len()) == w;
    assert(page.subrange(i, i + w.len()) == w);
    assert forall|k: int| 0 <= k < w.len() implies page[i + k] == #[trigger] w[k] by {
        assert(page.subrange(i, i + w.len())[k] == page[i + k]);
    }
    assert(w[0] == 'v' && w[1] == 'a' && w[2] == 'r' && w[3] == '(');
    assert(page[i] == 'v' && page[i + 1] == 'a' && page[i + 2] == 'r' && page[i + 3] == '(');
    assert(var_call_at(page, i));
    let j = choose|j: int| first_close_at(page, i + 4, j) && names.contains(#[trigger] page.subrange(i + 4, j));
    let e: int = i + 4 + v.len();
    assert(w[4 + v.len() as int] == ')');
    assert(page[e] == ')');
    if j < e {
        assert(w[j - i] == v[j - i - 4]);
        assert(page[j] == v[j - i - 4]);
    }
    assert(j == e);
    assert(page.subrange(i + 4, j) == v) by {
        assert forall|k: int| 0 <= k < v.len() implies page.subrange(i + 4, j)[k] == v[k] by {
            assert(w[k + 4] == v[k]);
        }
    }
}

/// The whole page built with the theme's defaults reads only properties
/// that those defaults declare.
/// The block of the theme's defaults reads only properties that they
/// declare.
proof fn lemma_css_block_reads_declared()
    ensures
        reads_only(css_block(declarations_text(default_declarations())), default_property_names()),
        starts_clean(css_block(declarations_text(default_declarations()))),
{
    let names = default_property_names();
    let ds = default_declarations();
    lemma_defaults_block_same_as_blank(Seq::<char>::empty());
    assert(css_block(Seq::<char>::empty()) == declarations_text(ds));
    lemma_theme_declarations_read_declared();
    lemma_declarations_text_reads_only(ds, names);
    reveal_strlit("--bg");
    lemma_declarations_text_first(ds);
}

/// The page's fixed text reads no property at all.
proof fn lemma_page_text_reads_nothing()
    ensures
        reads_only(PAGE_DOCTYPE@, default_property_names()) && starts_clean(PAGE_DOCTYPE@),
        reads_only(PAGE_HEAD@, default_property_names()) && starts_clean(PAGE_HEAD@),
        reads_only(PAGE_SCRIPT_HEAD@, default_property_names()) && starts_clean(PAGE_SCRIPT_HEAD@),
        reads_only(QUOTE_TEXT_DECLARATION@, default_property_names()) && starts_clean(QUOTE_TEXT_DECLARATION@),
        reads_only(STATEMENT_END@, default_property_names()) && starts_clean(STATEMENT_END@),
        reads_only(NEXT_DECLARATION@, default_property_names()) && starts_clean(NEXT_DECLARATION@),
        reads_only(QUOTE_AUTHOR_DECLARATION@, default_property_names()) && starts_clean(QUOTE_AUTHOR_DECLARATION@),
        reads_only(CYCLE_MINUTES_DECLARATION@, default_property_names()) && starts_clean(CYCLE_MINUTES_DECLARATION@),
        reads_only(PAGE_SCRIPT_BODY@, default_property_names()) && starts_clean(PAGE_SCRIPT_BODY@),
        reads_only(CYCLE_TEST@, default_property_names()) && starts_clean(CYCLE_TEST@),
        reads_only(PAGE_SCRIPT_TAIL@, default_property_names()) && starts_clean(PAGE_SCRIPT_TAIL@),
        reads_only(PAGE_END@, default_property_names()) && starts_clean(PAGE_END@),
{
    lemma_page_text_shape();
    lemma_no_var_call_reads_only(PAGE_DOCTYPE@, default_property_names());
    lemma_no_var_call_reads_only(PAGE_HEAD@, default_property_names());
    lemma_no_var_call_reads_only(PAGE_SCRIPT_HEAD@, default_property_names());
    lemma_no_var_call_reads_only(QUOTE_TEXT_DECLARATION@, default_property_names());
    lemma_no_var_call_reads_only(STATEMENT_END@, default_property_names());
    lemma_no_var_call_reads_only(NEXT_DECLARATION@, default_property_names());
    lemma_no_var_call_reads_only(QUOTE_AUTHOR_DECLARATION@, default_property_names());
    lemma_no_var_call_reads_only(CYCLE_MINUTES_DECLARATION@, default_property_names());
    lemma_no_var_call_reads_only(PAGE_SCRIPT_BODY@, default_property_names());
    lemma_no_var_call_reads_only(CYCLE_TEST@, default_property_names());
    lemma_no_var_call_reads_only(PAGE_SCRIPT_TAIL@, default_property_names());
    lemma_no_var_call_reads_only(PAGE_END@, default_property_names());
}

/// The literal of a quote with no `var(` reads no property at all.
proof fn lemma_literal_reads_nothing(s: Seq<char>, names: Seq<Seq<char>>)
    requires
        no_var_call(s),
    ensures
        reads_only(js_literal(s), names),
        starts_clean(js_literal(s)),
{
    lemma_literal_no_var_call(s);
    lemma_no_var_call_reads_only(js_literal(s), names);
}

proof fn lemma_page_reads_only(text: Seq<char>, author: Seq<char>, cycle: nat)
    requires
        no_var_call(text),
        no_var_call(author),
    ensures
        reads_only(
            html_document(
                css_block(declarations_text(default_declarations())),
                js_literal(text),
                js_literal(author),
                decimal(cycle),
            ),
            default_property_names(),
        ),
{
    let names = default_property_names();
    let css = css_block(declarations_text(default_declarations()));
    lemma_css_block_reads_declared();
    lemma_style_text_reads_declared();
    lemma_page_text_reads_nothing();
    lemma_literal_reads_nothing(text, names);
    lemma_literal_reads_nothing(author, names);
    lemma_decimal_shape(cycle);
    lemma_no_var_call_reads_only(decimal(cycle), names);
    let s0 = PAGE_DOCTYPE@;
    lemma_reads_only_concat(s0, PAGE_HEAD@, names);
    let s1 = s0 + PAGE_HEAD@;
    lemma_reads_only_concat(s1, css, names);
    let s2 = s1 + css;
    lemma_reads_only_concat(s2, style_text(style_pieces()), names);
    let s3 = s2 + style_text(style_pieces());
    lemma_reads_only_concat(s3, PAGE_SCRIPT_HEAD@, names);
    let s4 = s3 + PAGE_SCRIPT_HEAD@;
    lemma_reads_only_concat(s4, QUOTE_TEXT_DECLARATION@, names);
    let s5 = s4 + QUOTE_TEXT_DECLARATION@;
    lemma_reads_only_concat(s5, js_literal(text), names);
    let s6 = s5 + js_literal(text);
    lemma_reads_only_concat(s6, STATEMENT_END@, names);
    let s7 = s6 + STATEMENT_END@;
    lemma_reads_only_concat(s7, NEXT_DECLARATION@, names);
    let s8 = s7 + NEXT_DECLARATION@;
    lemma_reads_only_concat(s8, QUOTE_AUTHOR_DECLARATION@, names);
    let s9 = s8 + QUOTE_AUTHOR_DECLARATION@;
    lemma_reads_only_concat(s9, js_literal(author), names);
    let s10 = s9 + js_literal(author);
    lemma_reads_only_concat(s10, STATEMENT_END@, names);
    let s11 = s10 + STATEMENT_END@;
    lemma_reads_only_concat(s11, NEXT_DECLARATION@, names);
    let s12 = s11 + NEXT_DECLARATION@;
    lemma_reads_only_concat(s12, CYCLE_MINUTES_DECLARATION@, names);
    let s13 = s12 + CYCLE_MINUTES_DECLARATION@;
    lemma_reads_only_concat(s13, decimal(cycle), names);
    let s14 = s13 + decimal(cycle);
    lemma_reads_only_concat(s14, STATEMENT_END@, names);
    let s15 = s14 + STATEMENT_END@;
    lemma_reads_only_concat(s15, PAGE_SCRIPT_BODY@, names);
    let s16 = s15 + PAGE_SCRIPT_BODY@;
    lemma_reads_only_concat(s16, CYCLE_TEST@, names);
    let s17 = s16 + CYCLE_TEST@;
    lemma_reads_only_concat(s17, PAGE_SCRIPT_TAIL@, names);
    let s18 = s17 + PAGE_SCRIPT_TAIL@;
    lemma_reads_only_concat(s18, PAGE_END@, names);
}


} // verus!
