use pprc::analysis::Pos;
use pprc::analysis::Token as WordToken;
use pprc::analysis::TokenData;
use pprc::compile_str;
use pprc::render;
use pprc::underline_color;
use pprc::Content;

#[test]
fn heading_sizes_follow_the_table_and_clamp() {
    let doc = compile_str("H1 a\\H2 b\\H3 c\\H4 d\\H5 e\\H7 f").expect("compiles");
    let plan = render(&doc);
    let sizes: Vec<Option<usize>> = plan.iter().map(|p| p.runs[0].font_size).collect();
    assert_eq!(
        sizes,
        vec![Some(24), Some(20), Some(18), Some(16), Some(14), Some(14)]
    );
    for p in &plan {
        assert!(p.runs[0].bold);
        assert!(!p.centered);
    }
}

#[test]
fn paragraph_runs_carry_their_flags_and_preserve_whitespace() {
    let doc = compile_str("P a**b**//c//__d__--e--").expect("compiles");
    let plan = render(&doc);
    assert_eq!(plan.len(), 1);
    assert!(!plan[0].centered);
    let runs = &plan[0].runs;
    assert_eq!(runs.len(), 5);
    assert_eq!(runs[0].text, "a");
    assert!(!runs[0].bold && !runs[0].italics && !runs[0].underline && !runs[0].strikethrough);
    assert_eq!(runs[1].text, "b");
    assert!(runs[1].bold && !runs[1].italics);
    assert_eq!(runs[2].text, "c");
    assert!(runs[2].italics && !runs[2].bold);
    assert_eq!(runs[3].text, "d");
    assert!(runs[3].underline && !runs[3].bold);
    assert_eq!(runs[4].text, "e");
    assert!(runs[4].strikethrough && !runs[4].underline);
    for r in runs {
        assert!(r.preserve_space);
        assert_eq!(r.font_size, None);
    }
}

#[test]
fn trailing_styled_run_is_rendered() {
    let doc = compile_str("P x--gone").expect("compiles");
    let plan = render(&doc);
    let runs = &plan[0].runs;
    assert_eq!(runs.len(), 2);
    assert_eq!(runs[1].text, "gone");
    assert!(runs[1].strikethrough);
}

#[test]
fn underline_uses_the_fixed_default_color() {
    assert_eq!(underline_color(), "000000");
}

#[test]
fn plan_order_equals_document_order() {
    let doc = compile_str("T t\\P p\\B skip\\H2 h").expect("compiles");
    let plan = render(&doc);
    assert_eq!(doc.len(), 3);
    assert_eq!(plan.len(), 3);
    assert!(plan[0].centered);
    assert!(!plan[1].centered);
    assert_eq!(plan[2].runs[0].font_size, Some(20));
}

#[test]
fn empty_paragraph_renders_with_no_runs() {
    let doc = compile_str("P").expect("compiles");
    let plan = render(&doc);
    assert_eq!(plan.len(), 1);
    assert!(plan[0].runs.is_empty());
}

#[test]
fn default_content_is_an_empty_paragraph() {
    let c = Content::default();
    match c {
        Content::Paragraph(runs) => assert!(runs.is_empty()),
        other => panic!("expected a paragraph, got {:?}", other),
    }
}

#[test]
fn position_constructor_keeps_its_coordinates() {
    let p = Pos::new(10, 2, 4);
    assert_eq!(p.byte, 10);
    assert_eq!(p.line, 2);
    assert_eq!(p.char, 4);
}

#[test]
fn token_data_spans_len_characters_on_one_line() {
    let t = TokenData::new(WordToken::Word, Pos::new(7, 1, 3), 5);
    assert_eq!(t.token, WordToken::Word);
    assert_eq!(t.start, Pos::new(7, 1, 3));
    assert_eq!(t.end, Pos::new(12, 1, 8));
}
