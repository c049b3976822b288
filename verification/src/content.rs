//! The document data model: styled text runs, lexical tokens, content blocks,
//! compilation errors, and their mathematical views.

use vstd::prelude::*;

use crate::style::StyleSet;

verus! {

/// A text run: a maximal contiguous span of paragraph text that shares
/// exactly one style set.  Styles never change inside a run.
#[derive(Debug)]
pub struct Text {
    pub text: String,
    pub styles: StyleSet,
}

/// The mathematical view of a text run.
#[verifier::ext_equal]
pub struct TextView {
    pub text: Seq<char>,
    pub styles: StyleSet,
}

impl View for Text {
    type V = TextView;

    open spec fn view(&self) -> TextView {
        TextView { text: self.text@, styles: self.styles }
    }
}

impl DeepView for Text {
    type V = TextView;

    open spec fn deep_view(&self) -> TextView {
        self@
    }
}

/// A lexical token: one scanned paragraph, a block kind plus the ordered
/// list of its styled runs.
#[derive(Debug)]
pub enum Token {
    Paragraph(Vec<Text>),
    Heading(usize, Vec<Text>),
    Title(Vec<Text>),
    Bookmark(Vec<Text>),
}

/// The mathematical view of a lexical token.
#[verifier::ext_equal]
pub enum TokenView {
    Paragraph(Seq<TextView>),
    Heading(usize, Seq<TextView>),
    Title(Seq<TextView>),
    Bookmark(Seq<TextView>),
}

impl View for Token {
    type V = TokenView;

    open spec fn view(&self) -> TokenView {
        match self {
            Token::Paragraph(runs) => TokenView::Paragraph(runs.deep_view()),
            Token::Heading(level, runs) => TokenView::Heading(*level, runs.deep_view()),
            Token::Title(runs) => TokenView::Title(runs.deep_view()),
            Token::Bookmark(runs) => TokenView::Bookmark(runs.deep_view()),
        }
    }
}

impl DeepView for Token {
    type V = TokenView;

    open spec fn deep_view(&self) -> TokenView {
        self@
    }
}

impl Token {
    /// Appends one completed run to the token's run list, whatever the kind.
    pub fn add_text(&mut self, text: String, styles: StyleSet)
        ensures
            final(self)@ == old(self)@.with_run(TextView { text: text@, styles }),
    {
        let run = Text { text, styles };
        match self {
            Token::Title(list) => list.push(run),
            Token::Paragraph(list) => list.push(run),
            Token::Heading(_, list) => list.push(run),
            Token::Bookmark(list) => list.push(run),
        }
        proof {
            assert(self@.runs() =~= old(self)@.runs().push(TextView { text: text@, styles }));
            assert(self@ =~= old(self)@.with_run(TextView { text: text@, styles }));
        }
    }
}

impl TokenView {
    /// The token's run list.
    pub open spec fn runs(self) -> Seq<TextView> {
        match self {
            TokenView::Paragraph(runs) => runs,
            TokenView::Heading(_, runs) => runs,
            TokenView::Title(runs) => runs,
            TokenView::Bookmark(runs) => runs,
        }
    }

    /// The same token with one more run appended.
    pub open spec fn with_run(self, run: TextView) -> TokenView {
        match self {
            TokenView::Paragraph(runs) => TokenView::Paragraph(runs.push(run)),
            TokenView::Heading(level, runs) => TokenView::Heading(level, runs.push(run)),
            TokenView::Title(runs) => TokenView::Title(runs.push(run)),
            TokenView::Bookmark(runs) => TokenView::Bookmark(runs.push(run)),
        }
    }
}

/// A content block: one semantic unit of the compiled document.  Bookmark
/// tokens have no content block; classification drops them.
#[derive(Debug)]
pub enum Content {
    Paragraph(Vec<Text>),
    Title(Vec<Text>),
    Heading { level: usize, text: Vec<Text> },
}

/// The mathematical view of a content block.
#[verifier::ext_equal]
pub enum ContentView {
    Paragraph(Seq<TextView>),
    Title(Seq<TextView>),
    Heading { level: usize, text: Seq<TextView> },
}

impl View for Content {
    type V = ContentView;

    open spec fn view(&self) -> ContentView {
        match self {
            Content::Paragraph(runs) => ContentView::Paragraph(runs.deep_view()),
            Content::Title(runs) => ContentView::Title(runs.deep_view()),
            Content::Heading { level, text } => ContentView::Heading {
                level: *level,
                text: text.deep_view(),
            },
        }
    }
}

impl DeepView for Content {
    type V = ContentView;

    open spec fn deep_view(&self) -> ContentView {
        self@
    }
}

impl Default for Content {
    /// The default content block: an empty paragraph.
    fn default() -> (c: Content)
        ensures
            c@ == (ContentView::Paragraph(Seq::<TextView>::empty())),
    {
        let c = Content::Paragraph(Vec::new());
        proof {
            assert(c@ =~= ContentView::Paragraph(Seq::<TextView>::empty()));
        }
        c
    }
}

/// The compiled document: the ordered sequence of content blocks.  The order
/// is semantically meaningful and is never changed after construction.
pub type Document = Vec<Content>;

/// A compilation error.  Any such error aborts the whole compilation: no
/// partial document is produced.
#[derive(Debug, Clone, Copy, PartialEq, Eq, Structural)]
pub enum CompileError {
    /// The paragraph at this index begins with no known block marker.
    UnrecognizedBlockMarker(usize),
    /// The paragraph at this index begins with `H` not followed by a decimal
    /// digit between 1 and 9.
    MalformedHeadingMarker(usize),
}

/// A heading level is always between 1 and 9: it comes from a single nonzero
/// decimal digit in the heading marker.
pub open spec fn wf_content(c: ContentView) -> bool {
    match c {
        ContentView::Heading { level, .. } => 1 <= level <= 9,
        _ => true,
    }
}

/// Well-formedness of a lexical token: the same bound on heading levels.
pub open spec fn wf_token(t: TokenView) -> bool {
    match t {
        TokenView::Heading(level, _) => 1 <= level <= 9,
        _ => true,
    }
}

/// Well-formedness of a whole document.
pub open spec fn wf_document(doc: Seq<ContentView>) -> bool {
    forall|i: int| 0 <= i < doc.len() ==> wf_content(#[trigger] doc[i])
}

} // verus!
