use bspwm_cyberquote::cyberhtml::{build_html, default_css_vars, escape_html, escape_js_string, eval_js_str};
use bspwm_cyberquote::quotes::{Quote, QuoteSelection};

#[test]
fn cyberhtml_test_escape_html_basic() {
    let dangerous = "a <b> & \"c\"";
    let safe = escape_html(dangerous);
    assert_eq!(safe, "a &lt;b&gt; &amp; &quot;c&quot;");
}

#[test]
fn cyberhtml_test_js_escape_roundtrip() {
    let raw = "say \"hello\"\nand 'goodbye'";
    let js = escape_js_string(raw);
    assert!(js.starts_with('"') && js.ends_with('"'));
    let restored: String = eval_js_str(&js).unwrap_or_default();
    assert_eq!(restored, raw);
}

#[test]
fn cyberhtml_test_js_escape_controls() {
    let raw = "x\u{0000}y\u{0009}z";
    let js = escape_js_string(raw);
    assert!(js.contains("\\u0000"));
    assert!(js.contains("\\t"));
}

#[test]
fn cyberhtml_test_default_css_vars_has_required_keys() {
    let vars = default_css_vars();
    let required = [
        "--bg", "--fg", "--accent-cyan", "--accent-magenta",
        "--font-size", "--typewriter-ms", "--glitch-ms",
        "--scanline-opacity", "--crt-perspective", "--crt-radius",
        "--cursor-char", "--cursor-blink",
    ];
    for key in required.iter() {
        assert!(vars.contains(key), "default_css_vars missing {}", key);
    }
}

#[test]
fn escape_html_line_breaks_and_plain_text() {
    assert_eq!(escape_html("one\ntwo > three"), "one<br>two &gt; three");
    assert_eq!(escape_html(""), "");
    assert_eq!(escape_html("plain — text"), "plain — text");
}

#[test]
fn escape_js_string_exact_output() {
    assert_eq!(escape_js_string(""), "\"\"");
    assert_eq!(escape_js_string("a\\b"), "\"a\\\\b\"");
    assert_eq!(escape_js_string("\r\u{7f}\u{9f}\u{1b}"), "\"\\r\\u007f\\u009f\\u001b\"");
    assert_eq!(escape_js_string("é—\u{a0}"), "\"é—\u{a0}\"");
}

#[test]
fn js_round_trip_of_awkward_strings() {
    for raw in [
        "",
        "\"",
        "\\",
        "\\u0041",
        "tab\there\r\n",
        "\u{0}\u{1}\u{1f}\u{7f}\u{85}\u{9f}",
        "emoji 🚀 and — dash",
        "  leading and trailing  ",
    ] {
        let js = escape_js_string(raw);
        assert_eq!(eval_js_str(&js), Some(raw.to_string()), "round trip of {:?}", raw);
    }
}

#[test]
fn eval_js_str_reads_literals() {
    assert_eq!(eval_js_str("  \"a\\u0041\\u+042\"\n"), Some("aAB".to_string()));
    assert_eq!(eval_js_str("\"\\x\""), Some("\\".to_string()));
    assert_eq!(eval_js_str("\"end\\\""), Some("end\\".to_string()));
    assert_eq!(eval_js_str("\"tail\\\\\""), Some("tail\\".to_string()));
    assert_eq!(eval_js_str("\"\\ud800x\""), Some("x".to_string()));
    assert_eq!(eval_js_str("\"\\u12\""), Some("\u{12}".to_string()));
    assert_eq!(eval_js_str("\"\\uzz\""), Some("".to_string()));
    assert_eq!(eval_js_str("\"\\u+\""), Some("".to_string()));
    assert_eq!(eval_js_str("\"\""), Some(String::new()));
    assert_eq!(eval_js_str("'single'"), None);
    assert_eq!(eval_js_str("\"open"), None);
    assert_eq!(eval_js_str(""), None);
}

fn selection(text: &str, author: &str) -> QuoteSelection {
    QuoteSelection { quote: Quote { text: text.to_string(), author: author.to_string() } }
}

#[test]
fn build_html_blank_css_uses_theme_and_escapes_quote() {
    let sel = selection("a \"b\"\n</script>", "O'Neil");
    let html = build_html(&sel, " \t\n", 12);
    assert!(html.contains(":root {\n  --bg:#05070d;"));
    assert!(html.contains("var QUOTE_TEXT = \"a \\\"b\\\"\\n\\u003c/script>\";"));
    assert!(!html.contains("</script>\";"));
    assert!(html.contains("var QUOTE_AUTHOR = \"O'Neil\";"));
    assert!(html.contains("var CYCLE_MINUTES = 12;"));
    assert_eq!(html, build_html(&sel, "", 12));
}

#[test]
fn build_html_puts_given_vars_after_missing_defaults() {
    let sel = selection("x", "y");
    let html = build_html(&sel, "  --bg:#000;  ", 18446744073709551615);
    let defaults_without_bg = default_css_vars().replacen("--bg:#05070d;", "", 1);
    let block = format!(":root {{\n  {}  --bg:#000;  \n}}", defaults_without_bg);
    assert!(html.contains(&block));
    assert!(!html.contains("--bg:#05070d;"));
    assert!(html.contains("--font-size:37px;"));
    assert!(html.contains("var CYCLE_MINUTES = 18446744073709551615;"));
    assert!(html.ends_with("</html>"));
}

#[test]
fn build_html_with_theme_defaults_is_build_html_with_blank() {
    let sel = selection("Override test", "A. Override");
    for n in [0u64, 3] {
        assert_eq!(build_html(&sel, &default_css_vars(), n), build_html(&sel, "", n));
        assert_eq!(build_html(&sel, &default_css_vars(), n), build_html(&sel, " \n\t", n));
    }
    let custom = build_html(&sel, "--accent-cyan:#ff00ff;--accent-magenta:#00ffff;--font-size:30px;", 0);
    assert!(custom.contains("--accent-cyan:#ff00ff;"));
    assert!(custom.contains("--font-size:30px;"));
    assert!(!custom.contains("--accent-cyan:#39e6ff;"));
    assert!(!custom.contains("--font-size:37px;"));
    assert!(custom.contains("--bg:#05070d;"));
    assert_eq!(custom.matches("--accent-cyan:").count(), 1);
}

#[test]
fn declaration_detection_needs_a_colon_at_a_declaration_start() {
    let sel = selection("x", "y");
    // `--bg` inside a value, or followed by a space before the colon, does not declare it.
    let html = build_html(&sel, "--x:var(--bg);--bg :#111;", 0);
    assert!(html.contains("--bg:#05070d;"));
    let html = build_html(&sel, "--x:1;\n --bg:#111;", 0);
    assert!(!html.contains("--bg:#05070d;"));
}

#[test]
fn escape_js_string_cannot_close_the_script() {
    let js = escape_js_string("</script><b>x</SCRIPT>");
    assert!(!js.to_ascii_lowercase().contains("</script"));
    assert_eq!(js, "\"\\u003c/script>\\u003cb>x\\u003c/SCRIPT>\"");
    assert_eq!(eval_js_str(&js), Some("</script><b>x</SCRIPT>".to_string()));
}

#[test]
fn default_declarations_split_into_distinct_names() {
    let vars = default_css_vars();
    assert!(vars.ends_with(';'));
    let decls: Vec<&str> = vars.split(';').filter(|d| !d.is_empty()).collect();
    assert_eq!(decls.len(), 43);
    let mut names: Vec<&str> = decls.iter().map(|d| d.split(':').next().unwrap()).collect();
    assert!(names.iter().all(|n| n.starts_with("--")));
    names.sort();
    names.dedup();
    assert_eq!(names.len(), 43);
}

#[test]
fn page_reads_only_declared_properties() {
    let vars = default_css_vars();
    let html = build_html(&selection("q", "a"), "", 0);
    let mut rest = html.as_str();
    let mut count = 0;
    while let Some(i) = rest.find("var(") {
        let after = &rest[i + 4..];
        let name = &after[..after.find(')').unwrap()];
        assert!(vars.contains(&format!("{}:", name)), "undeclared {}", name);
        count += 1;
        rest = after;
    }
    assert!(count > 60);
}

#[test]
fn page_shape() {
    let html = build_html(&selection("text", "who"), "", 7);
    assert!(html.starts_with("<!doctype html>"));
    assert!(html.ends_with("</html>"));
    assert!(html.contains("var QUOTE_TEXT = \"text\";"));
    assert!(html.contains("var QUOTE_AUTHOR = \"who\";"));
    assert!(html.contains("var CYCLE_MINUTES = 7;"));
    assert!(html.contains("if (CYCLE_MINUTES > 0)"));
}

#[test]
fn escape_js_string_quotes_follow_odd_backslash_runs() {
    let input = "a\\\"b\\\\\"é\u{1}";
    let out = escape_js_string(input);
    assert!(out.len() >= input.len() + 2);
    let chars: Vec<char> = out.chars().collect();
    assert_eq!(chars[0], '"');
    assert_eq!(chars[chars.len() - 1], '"');
    for i in 0..chars.len() {
        let mut run = 0;
        while run < i && chars[i - 1 - run] == '\\' {
            run += 1;
        }
        if chars[i] == '"' {
            if i == 0 || i == chars.len() - 1 {
                assert_eq!(run % 2, 0);
            } else {
                assert_eq!(run % 2, 1);
            }
        }
    }
    assert_eq!(out, "\"a\\\\\\\"b\\\\\\\\\\\"é\\u0001\"");
}

#[test]
fn page_with_theme_defaults_reads_only_declared_properties() {
    let vars = default_css_vars();
    let html = build_html(&selection("va(r) \"var\" (", "v<a>r"), &vars, 5);
    let mut rest = html.as_str();
    let mut names = Vec::new();
    while let Some(i) = rest.find("var(") {
        let after = &rest[i + 4..];
        let name = &after[..after.find(')').unwrap()];
        assert!(vars.starts_with(&format!("{}:", name)) || vars.contains(&format!(";{}:", name)), "undeclared {}", name);
        names.push(name.to_string());
        rest = after;
    }
    assert!(names.contains(&"--accent-cyan".to_string()));
    assert!(names.contains(&"--vignette-edge".to_string()));
}
