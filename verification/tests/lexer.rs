use pprc::chars_of;
use pprc::collect_tokens;
use pprc::compile_str;
use pprc::scan_paragraph;
use pprc::tok2cont;
use pprc::CompileError;
use pprc::Content;
use pprc::Style;
use pprc::StyleSet;
use pprc::Text;
use pprc::Token;

fn empty() -> StyleSet {
    StyleSet { bold: false, italics: false, underline: false, strikethrough: false }
}

fn only(s: Style) -> StyleSet {
    let mut set = empty();
    set.toggle(s);
    set
}

fn pairs(runs: &[Text]) -> Vec<(String, StyleSet)> {
    runs.iter().map(|r| (r.text.clone(), r.styles)).collect()
}

fn paragraph_runs(src: &str) -> Vec<(String, StyleSet)> {
    let doc = compile_str(src).expect("compiles");
    assert_eq!(doc.len(), 1);
    match &doc[0] {
        Content::Paragraph(runs) => pairs(runs),
        other => panic!("expected a paragraph, got {:?}", other),
    }
}

#[test]
fn even_toggle_count_restores_the_style_set() {
    assert_eq!(
        paragraph_runs("P a//b//c"),
        vec![
            ("a".to_string(), empty()),
            ("b".to_string(), only(Style::Italics)),
            ("c".to_string(), empty()),
        ]
    );
}

#[test]
fn odd_toggle_count_leaves_the_style_open() {
    assert_eq!(
        paragraph_runs("P a__b"),
        vec![("a".to_string(), empty()), ("b".to_string(), only(Style::Underline))]
    );
}

#[test]
fn strikethrough_toggle_is_double_hyphen() {
    assert_eq!(
        paragraph_runs("P a--b--c"),
        vec![
            ("a".to_string(), empty()),
            ("b".to_string(), only(Style::Strikethrough)),
            ("c".to_string(), empty()),
        ]
    );
}

#[test]
fn consecutive_toggles_make_no_empty_run() {
    let mut both = empty();
    both.toggle(Style::Bold);
    both.toggle(Style::Underline);
    assert_eq!(
        paragraph_runs("P a**__b"),
        vec![("a".to_string(), empty()), ("b".to_string(), both)]
    );
}

#[test]
fn styles_nest_and_unnest_across_runs() {
    let mut bold_italic = empty();
    bold_italic.toggle(Style::Bold);
    bold_italic.toggle(Style::Italics);
    assert_eq!(
        paragraph_runs("P x**y//z//w**v"),
        vec![
            ("x".to_string(), empty()),
            ("y".to_string(), only(Style::Bold)),
            ("z".to_string(), bold_italic),
            ("w".to_string(), only(Style::Bold)),
            ("v".to_string(), empty()),
        ]
    );
}

#[test]
fn whitespace_is_trimmed_and_collapsed() {
    assert_eq!(
        paragraph_runs("P \t a \t\n b  "),
        vec![("a b".to_string(), empty())]
    );
}

#[test]
fn whitespace_collapses_around_toggles() {
    assert_eq!(
        paragraph_runs("P a  **  b"),
        vec![("a ".to_string(), empty()), (" b".to_string(), only(Style::Bold))]
    );
}

#[test]
fn normalization_is_idempotent_on_a_body() {
    let raw = chars_of("  a \t b//c  d  ");
    let once = pprc::scan::normalize_from(&raw, 0);
    let twice = pprc::scan::normalize_from(&once, 0);
    assert_eq!(once, twice);
    let expected: Vec<char> = "a b//c d".chars().collect();
    assert_eq!(once, expected);
}

#[test]
fn empty_body_yields_no_runs() {
    let doc = compile_str("P").expect("compiles");
    match &doc[0] {
        Content::Paragraph(runs) => assert!(runs.is_empty()),
        other => panic!("expected a paragraph, got {:?}", other),
    }
}

#[test]
fn document_order_follows_source_order() {
    let doc = compile_str("T Doc\\P one\\H3 deep\\P two").expect("compiles");
    assert_eq!(doc.len(), 4);
    assert!(matches!(&doc[0], Content::Title(_)));
    match &doc[1] {
        Content::Paragraph(runs) => assert_eq!(runs[0].text, "one"),
        other => panic!("expected a paragraph, got {:?}", other),
    }
    assert!(matches!(&doc[2], Content::Heading { level: 3, .. }));
    match &doc[3] {
        Content::Paragraph(runs) => assert_eq!(runs[0].text, "two"),
        other => panic!("expected a paragraph, got {:?}", other),
    }
}

#[test]
fn bookmarks_are_recognized_but_dropped() {
    let doc = compile_str("P one\\B mark\\P two").expect("compiles");
    assert_eq!(doc.len(), 2);
    assert!(matches!(&doc[0], Content::Paragraph(_)));
    assert!(matches!(&doc[1], Content::Paragraph(_)));
}

#[test]
fn error_carries_the_paragraph_index() {
    let err = compile_str("P ok\\X bad\\P later").expect_err("must fail");
    assert_eq!(err, CompileError::UnrecognizedBlockMarker(1));
}

#[test]
fn heading_without_digit_is_malformed() {
    let err = compile_str("H bad").expect_err("must fail");
    assert_eq!(err, CompileError::MalformedHeadingMarker(0));
    let err = compile_str("P ok\\H").expect_err("must fail");
    assert_eq!(err, CompileError::MalformedHeadingMarker(1));
}

#[test]
fn heading_digit_zero_is_malformed() {
    let err = compile_str("H0 x").expect_err("must fail");
    assert_eq!(err, CompileError::MalformedHeadingMarker(0));
}

#[test]
fn empty_source_is_one_unrecognized_paragraph() {
    let err = compile_str("").expect_err("must fail");
    assert_eq!(err, CompileError::UnrecognizedBlockMarker(0));
}

#[test]
fn scan_results_reassemble_in_paragraph_order() {
    let paras = ["T Doc", "P body //x//", "B mark"];
    let results: Vec<_> = paras
        .iter()
        .enumerate()
        .map(|(i, p)| scan_paragraph(&chars_of(p), i))
        .collect();
    let tokens = collect_tokens(results).expect("all paragraphs scan");
    assert_eq!(tokens.len(), 3);
    assert!(matches!(&tokens[0], Token::Title(_)));
    assert!(matches!(&tokens[1], Token::Paragraph(_)));
    assert!(matches!(&tokens[2], Token::Bookmark(_)));
    let doc = tok2cont(tokens);
    assert_eq!(doc.len(), 2);
    assert!(matches!(&doc[0], Content::Title(_)));
    assert!(matches!(&doc[1], Content::Paragraph(_)));
}

#[test]
fn collect_tokens_reports_the_first_error() {
    let paras = ["P ok", "X bad", "H9"];
    let results: Vec<_> = paras
        .iter()
        .enumerate()
        .map(|(i, p)| scan_paragraph(&chars_of(p), i))
        .collect();
    let err = collect_tokens(results).expect_err("must fail");
    assert_eq!(err, CompileError::UnrecognizedBlockMarker(1));
}

#[test]
fn add_text_appends_a_run_to_any_token_kind() {
    let mut tok = Token::Heading(4, Vec::new());
    tok.add_text("abc".to_string(), only(Style::Bold));
    tok.add_text("d".to_string(), empty());
    match tok {
        Token::Heading(level, runs) => {
            assert_eq!(level, 4);
            assert_eq!(
                pairs(&runs),
                vec![("abc".to_string(), only(Style::Bold)), ("d".to_string(), empty())]
            );
        }
        other => panic!("expected a heading, got {:?}", other),
    }
}

#[test]
fn sequential_lexer_and_compile_agree() {
    let chars = chars_of("P a//b//\\B x\\T t");
    let tokens = pprc::lexerize(&chars).expect("lexes");
    assert_eq!(tokens.len(), 3);
    assert!(matches!(&tokens[1], Token::Bookmark(_)));
    let doc = pprc::compile(&chars).expect("compiles");
    assert_eq!(doc.len(), 2);
    assert!(matches!(&doc[0], Content::Paragraph(_)));
    assert!(matches!(&doc[1], Content::Title(_)));
}

#[test]
fn sequential_lexer_stops_at_the_first_error() {
    let chars = chars_of("T ok\\H5 ok\\Q bad\\H_ worse");
    let err = pprc::lexerize(&chars).expect_err("must fail");
    assert_eq!(err, CompileError::UnrecognizedBlockMarker(2));
}

#[test]
fn style_set_toggle_flips_membership() {
    let mut set = empty();
    assert!(!set.has(Style::Bold));
    set.toggle(Style::Bold);
    assert!(set.has(Style::Bold));
    assert!(!set.has(Style::Italics));
    set.toggle(Style::Bold);
    assert_eq!(set, empty());
}
