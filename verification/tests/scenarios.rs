use pprc::compile_str;
use pprc::CompileError;
use pprc::Content;
use pprc::StyleSet;
use pprc::Text;

fn styles(bold: bool, italics: bool, underline: bool, strikethrough: bool) -> StyleSet {
    StyleSet { bold, italics, underline, strikethrough }
}

fn run_pairs(runs: &[Text]) -> Vec<(String, StyleSet)> {
    runs.iter().map(|r| (r.text.clone(), r.styles)).collect()
}

#[test]
fn scenario_paragraph_with_bold() {
    let doc = compile_str("P Hello **world**").expect("compiles");
    assert_eq!(doc.len(), 1);
    match &doc[0] {
        Content::Paragraph(runs) => {
            assert_eq!(
                run_pairs(runs),
                vec![
                    ("Hello ".to_string(), styles(false, false, false, false)),
                    ("world".to_string(), styles(true, false, false, false)),
                ]
            );
        }
        other => panic!("expected a paragraph, got {:?}", other),
    }
}

#[test]
fn scenario_heading_with_italics() {
    let doc = compile_str("H2 Section //One//").expect("compiles");
    assert_eq!(doc.len(), 1);
    match &doc[0] {
        Content::Heading { level, text } => {
            assert_eq!(*level, 2);
            assert_eq!(
                run_pairs(text),
                vec![
                    ("Section ".to_string(), styles(false, false, false, false)),
                    ("One".to_string(), styles(false, true, false, false)),
                ]
            );
        }
        other => panic!("expected a heading, got {:?}", other),
    }
}

#[test]
fn scenario_title_with_italics() {
    let doc = compile_str("T My //Title//").expect("compiles");
    assert_eq!(doc.len(), 1);
    match &doc[0] {
        Content::Title(runs) => {
            assert_eq!(
                run_pairs(runs),
                vec![
                    ("My ".to_string(), styles(false, false, false, false)),
                    ("Title".to_string(), styles(false, true, false, false)),
                ]
            );
        }
        other => panic!("expected a title, got {:?}", other),
    }
}

#[test]
fn scenario_unterminated_toggle() {
    let doc = compile_str("P **Bold forever").expect("compiles");
    assert_eq!(doc.len(), 1);
    match &doc[0] {
        Content::Paragraph(runs) => {
            assert_eq!(
                run_pairs(runs),
                vec![("Bold forever".to_string(), styles(true, false, false, false))]
            );
        }
        other => panic!("expected a paragraph, got {:?}", other),
    }
}

#[test]
fn scenario_unrecognized_marker() {
    let err = compile_str("X nope").expect_err("must fail");
    assert_eq!(err, CompileError::UnrecognizedBlockMarker(0));
}

#[test]
fn heading_exported_as_one_bold_run() {
    let doc = compile_str("H2 Section //One//").expect("compiles");
    let plan = pprc::render(&doc);
    assert_eq!(plan.len(), 1);
    assert!(!plan[0].centered);
    assert_eq!(plan[0].runs.len(), 1);
    let run = &plan[0].runs[0];
    assert_eq!(run.text, "Section One");
    assert!(run.bold);
    assert!(!run.italics);
    assert!(!run.strikethrough);
    assert!(!run.underline);
    assert_eq!(run.font_size, Some(20));
    assert!(!run.preserve_space);
}

#[test]
fn title_exported_centered_without_styling() {
    let doc = compile_str("T My //Title//").expect("compiles");
    let plan = pprc::render(&doc);
    assert_eq!(plan.len(), 1);
    assert!(plan[0].centered);
    assert_eq!(plan[0].runs.len(), 1);
    let run = &plan[0].runs[0];
    assert_eq!(run.text, "My Title");
    assert!(!run.bold && !run.italics && !run.strikethrough && !run.underline);
    assert_eq!(run.font_size, None);
}
