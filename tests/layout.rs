use exprfmt::config::{Config, RewriteError};
use exprfmt::escape::escape_default;
use exprfmt::expr::{Expr, Field, FmtVisitor, Span};
use exprfmt::lists::{write_list, ListFormatting, ListTactic, SeparatorTactic};

fn chars(s: &str) -> Vec<char> {
    s.chars().collect()
}

fn text(v: &[char]) -> String {
    v.iter().collect()
}

fn visitor(source: &str, max_width: usize) -> FmtVisitor {
    FmtVisitor {
        source: chars(source),
        config: Config {
            max_width,
            struct_lit_trailing_comma: SeparatorTactic::Vertical,
            min_string: 10,
        },
    }
}

fn other(lo: usize, hi: usize) -> Expr {
    Expr::Other { span: Span { lo, hi } }
}

fn render(v: &FmtVisitor, e: &Expr, width: usize, offset: usize) -> String {
    text(&v.rewrite_expr(e, width, offset).unwrap())
}

/// A string literal standing alone as the whole source.
fn literal_source(body: &str) -> (String, Expr) {
    let src = format!("\"{}\"", body);
    let n = src.chars().count();
    let lit = Expr::StrLit { text: chars(body), span: Span { lo: 0, hi: n } };
    (src, lit)
}

#[test]
fn struct_literal_on_one_line() {
    let v = visitor("Point { x: 1, y: 2 }", 100);
    let e = Expr::StructLit {
        path: chars("Point"),
        fields: vec![
            Field { name: chars("x"), expr: other(11, 12) },
            Field { name: chars("y"), expr: other(17, 18) },
        ],
        base: None,
    };
    assert_eq!(render(&v, &e, 80, 0), "Point { x: 1, y: 2 }");
}

#[test]
fn struct_literal_that_just_fits_stays_on_one_line() {
    let v = visitor("Point { x: 1, y: 2 }", 100);
    let e = Expr::StructLit {
        path: chars("Point"),
        fields: vec![
            Field { name: chars("x"), expr: other(11, 12) },
            Field { name: chars("y"), expr: other(17, 18) },
        ],
        base: None,
    };
    // budget 20 - 10 = 10 == 4 + 4 + 2
    assert_eq!(render(&v, &e, 20, 0), "Point { x: 1, y: 2 }");
}

#[test]
fn struct_literal_vertical_gets_trailing_comma() {
    let v = visitor("Point { x: 1, y: 2 }", 100);
    let e = Expr::StructLit {
        path: chars("Point"),
        fields: vec![
            Field { name: chars("x"), expr: other(11, 12) },
            Field { name: chars("y"), expr: other(17, 18) },
        ],
        base: None,
    };
    // budget 19 - 10 = 9 < 4 + 4 + 2
    assert_eq!(render(&v, &e, 19, 0), "Point { x: 1,\n        y: 2, }");
}

#[test]
fn struct_literal_with_base() {
    let v = visitor("Point { x: 1, ..base }", 100);
    let e = Expr::StructLit {
        path: chars("Point"),
        fields: vec![Field { name: chars("x"), expr: other(11, 12) }],
        base: Some(Box::new(other(16, 20))),
    };
    assert_eq!(render(&v, &e, 80, 0), "Point { x: 1, ..base }");
}

fn call_foo() -> (FmtVisitor, Expr) {
    let v = visitor("foo aaaaaaaaaa bbbbbbbbbb", 100);
    let e = Expr::Call {
        callee: Box::new(other(0, 3)),
        args: vec![other(4, 14), other(15, 25)],
    };
    (v, e)
}

#[test]
fn call_on_one_line() {
    let (v, e) = call_foo();
    assert_eq!(render(&v, &e, 80, 0), "foo(aaaaaaaaaa, bbbbbbbbbb)");
}

#[test]
fn call_wraps_one_argument_per_line() {
    let (v, e) = call_foo();
    // 20 - 3 - 2 = 15 columns for the arguments; continuation at 4 + 3 + 1
    assert_eq!(render(&v, &e, 20, 4), "foo(aaaaaaaaaa,\n        bbbbbbbbbb)");
}

#[test]
fn call_without_arguments() {
    let v = visitor("foo", 100);
    let e = Expr::Call { callee: Box::new(other(0, 3)), args: vec![] };
    assert_eq!(render(&v, &e, 10, 0), "foo()");
}

#[test]
fn call_callee_too_wide() {
    let (v, e) = call_foo();
    assert_eq!(v.rewrite_expr(&e, 4, 0), Err(RewriteError::BudgetOutOfRange));
}

#[test]
fn paren_wraps_its_expression() {
    let v = visitor("(a)", 100);
    let e = Expr::Paren { sub: Box::new(other(1, 2)) };
    assert_eq!(render(&v, &e, 10, 0), "(a)");
    assert_eq!(v.rewrite_expr(&e, 1, 0), Err(RewriteError::BudgetOutOfRange));
}

#[test]
fn singleton_tuple_keeps_comma() {
    let v = visitor("(x,)", 100);
    let e = Expr::Tuple { items: vec![other(1, 2)] };
    assert_eq!(render(&v, &e, 80, 0), "(x,)");
    assert_eq!(render(&v, &e, 3, 0), "(x,)");
}

#[test]
fn tuple_on_one_line() {
    let v = visitor("(a, b)", 100);
    let e = Expr::Tuple { items: vec![other(1, 2), other(4, 5)] };
    assert_eq!(render(&v, &e, 80, 0), "(a, b)");
}

#[test]
fn empty_tuple() {
    let v = visitor("()", 100);
    let e = Expr::Tuple { items: vec![] };
    assert_eq!(render(&v, &e, 80, 0), "()");
}

#[test]
fn tuple_with_escaped_break_stays_on_one_line() {
    let v = visitor("(a, \"x\ny\")", 100);
    let lit = Expr::StrLit { text: chars("x\ny"), span: Span { lo: 4, hi: 9 } };
    let e = Expr::Tuple { items: vec![other(1, 2), lit] };
    assert_eq!(render(&v, &e, 80, 0), "(a, \"x\\ny\")");
}

#[test]
fn tuple_with_multiline_source_item_goes_vertical() {
    let v = visitor("(a, b\nc)", 100);
    let e = Expr::Tuple { items: vec![other(1, 2), other(4, 7)] };
    assert_eq!(render(&v, &e, 80, 0), "(a,\n b\nc)");
}

#[test]
fn other_kind_is_kept_verbatim() {
    let v = visitor("x + y * z", 100);
    assert_eq!(render(&v, &other(0, 9), 3, 7), "x + y * z");
    assert_eq!(render(&v, &other(4, 5), 0, 0), "y");
}

#[test]
fn span_past_the_source() {
    let v = visitor("abc", 100);
    assert_eq!(v.rewrite_expr(&other(1, 9), 80, 0), Err(RewriteError::SpanOutOfRange));
    assert_eq!(v.rewrite_expr(&other(2, 1), 80, 0), Err(RewriteError::SpanOutOfRange));
}

#[test]
fn short_literal_keeps_source_text() {
    // the source spells the literal otherwise than its decoded text
    let v = visitor("\"a\\u{41}\"", 100);
    let e = Expr::StrLit { text: chars("aA"), span: Span { lo: 0, hi: 9 } };
    assert_eq!(render(&v, &e, 5, 0), "\"a\\u{41}\"");
}

#[test]
fn multiline_literal_is_escaped() {
    let v = visitor("\"a\tb\nc\"", 100);
    let e = Expr::StrLit { text: chars("a\tb\nc"), span: Span { lo: 0, hi: 7 } };
    assert_eq!(render(&v, &e, 40, 0), "\"a\\tb\\nc\"");
}

#[test]
fn long_literal_splits_after_whitespace() {
    let words = "the quick brown fox jumps over the lazy dog and keeps running far beyond the hills until night falls";
    assert_eq!(words.len(), 100);
    let (src, lit) = literal_source(words);
    let v = visitor(&src, 100);
    assert_eq!(
        render(&v, &lit, 40, 0),
        "\"the quick brown fox jumps over the \\\n lazy dog and keeps running far beyond the hills until night falls\""
    );
}

#[test]
fn long_literal_uses_later_line_width() {
    let words = "the quick brown fox jumps over the lazy dog and keeps running far beyond the hills until night falls";
    let (src, lit) = literal_source(words);
    let v = visitor(&src, 60);
    assert_eq!(
        render(&v, &lit, 40, 4),
        "\"the quick brown fox jumps over the \\\n     lazy dog and keeps running far beyond the hills until \\\n     night falls\""
    );
}

#[test]
fn long_word_falls_back_to_a_plain_cut() {
    let body = format!("aaaaa {}", "b".repeat(94));
    let (src, lit) = literal_source(&body);
    let v = visitor(&src, 100);
    let expected = format!("\"aaaaa {}\\\n {}\"", "b".repeat(32), "b".repeat(62));
    assert_eq!(render(&v, &lit, 40, 0), expected);
}

#[test]
fn cut_backs_off_to_escape_start() {
    let body = format!("{}\t{}", "b".repeat(37), "b".repeat(60));
    let (src, lit) = literal_source(&body);
    let v = visitor(&src, 90);
    let expected = format!("\"{}\\\n \\t{}\"", "b".repeat(37), "b".repeat(60));
    assert_eq!(render(&v, &lit, 40, 0), expected);
}

#[test]
fn rejoined_segments_give_escaped_text() {
    let body = "tab\there, quote \" and backslash \\ then many more words to push this past the width limit";
    let (src, lit) = literal_source(body);
    let v = visitor(&src, 50);
    let out = render(&v, &lit, 30, 2);
    assert!(out.contains("\\\n   "));
    let rejoined = out[1..out.len() - 1].replace("\\\n   ", "");
    assert_eq!(rejoined, body.escape_default().to_string());
}

#[test]
fn literal_without_room() {
    let (src, lit) = literal_source("some words that will not fit here at all");
    let v = visitor(&src, 20);
    assert_eq!(v.rewrite_expr(&lit, 1, 0), Err(RewriteError::BudgetOutOfRange));
    assert_eq!(v.rewrite_expr(&lit, 30, 19), Err(RewriteError::BudgetOutOfRange));
}

#[test]
fn list_policies() {
    let items = vec![chars("ab"), chars("cd")];
    let fmt = |tactic, trailing, h_width| ListFormatting { tactic, trailing_separator: trailing, indent: 2, h_width };
    let h = write_list(&items, &fmt(ListTactic::HorizontalVertical, SeparatorTactic::Never, 6));
    assert_eq!(text(&h), "ab, cd");
    let v = write_list(&items, &fmt(ListTactic::HorizontalVertical, SeparatorTactic::Never, 5));
    assert_eq!(text(&v), "ab,\n  cd");
    let a = write_list(&items, &fmt(ListTactic::HorizontalVertical, SeparatorTactic::Always, 8));
    assert_eq!(text(&a), "ab, cd,");
    let vt = write_list(&items, &fmt(ListTactic::HorizontalVertical, SeparatorTactic::Vertical, 6));
    assert_eq!(text(&vt), "ab, cd");
    let tv = write_list(&items, &fmt(ListTactic::Vertical, SeparatorTactic::Vertical, 80));
    assert_eq!(text(&tv), "ab,\n  cd,");
    assert_eq!(text(&write_list(&vec![], &fmt(ListTactic::Vertical, SeparatorTactic::Always, 0))), "");
}

#[test]
fn columns_and_lines() {
    let v = visitor("ab\ncde\n", 100);
    assert_eq!(v.column(0), 0);
    assert_eq!(v.column(2), 2);
    assert_eq!(v.column(3), 0);
    assert_eq!(v.column(6), 3);
    assert!(v.on_one_line(3, 6));
    assert!(!v.on_one_line(1, 4));
}

#[test]
fn tuple_with_wrapped_literal_goes_vertical() {
    let v = visitor("(a, \"one two three four five six seven\")", 30);
    let lit = Expr::StrLit {
        text: chars("one two three four five six seven"),
        span: Span { lo: 4, hi: 39 },
    };
    let e = Expr::Tuple { items: vec![other(1, 2), lit] };
    assert_eq!(
        render(&v, &e, 30, 0),
        "(a,\n \"one two three four five \\\n  six seven\")"
    );
}

/// A literal standing at column 100 of its line, so that it is always rewrapped.
fn far_literal(body: &str) -> (String, Expr) {
    let src = format!("{}\"{}\"", " ".repeat(100), body);
    let n = src.chars().count();
    let lit = Expr::StrLit { text: chars(body), span: Span { lo: 100, hi: n } };
    (src, lit)
}

#[test]
fn cut_never_splits_a_unicode_escape() {
    let (src, lit) = far_literal("\u{e9}\u{e9}\u{e9}");
    let v = visitor(&src, 100);
    assert_eq!(render(&v, &lit, 12, 0), "\"\\u{e9}\\\n \\u{e9}\\u{e9}\"");
}

#[test]
fn long_escaped_word_cuts_at_last_whole_escape() {
    let (src, lit) = far_literal(&"\u{e9}".repeat(7));
    let v = visitor(&src, 100);
    let expected = format!("\"{}\\\n {}\"", "\\u{e9}".repeat(6), "\\u{e9}");
    assert_eq!(render(&v, &lit, 40, 0), expected);
}

#[test]
fn escaping_matches_char_escape_default() {
    let samples = "a\tb\r\n'\"\\ ~\u{0}\u{7f}\u{e9}\u{2028}\u{1f600}\u{10ffff}";
    let (escaped, bounds) = escape_default(&chars(samples));
    assert_eq!(text(&escaped), samples.escape_default().to_string());
    assert_eq!(bounds.len(), escaped.len() + 1);
    let mut at = 0;
    for c in samples.chars() {
        assert!(bounds[at]);
        let n = c.escape_default().count();
        for k in 1..n {
            assert!(!bounds[at + k]);
        }
        at += n;
    }
    assert!(bounds[at]);
}

#[test]
fn escape_longer_than_room_stays_whole() {
    let v = FmtVisitor {
        source: chars("abcd"),
        config: Config {
            max_width: 3,
            struct_lit_trailing_comma: SeparatorTactic::Vertical,
            min_string: 1,
        },
    };
    let lit = Expr::StrLit { text: chars("\u{e9}"), span: Span { lo: 0, hi: 4 } };
    assert_eq!(render(&v, &lit, 7, 0), "\"\\u{e9}\\\n \"");
    let v5 = FmtVisitor { source: chars("abcdef"), config: Config { max_width: 5, ..v.config } };
    let lit2 = Expr::StrLit { text: chars("\u{e9}a"), span: Span { lo: 0, hi: 6 } };
    assert_eq!(render(&v5, &lit2, 7, 0), "\"\\u{e9}\\\n a\"");
}
