//! The exporter: maps a compiled document onto a plain paragraph/run
//! rendering plan, the abstract interface of the word-processing back end.
//! For each content block, in document order, the plan holds exactly one
//! output paragraph:
//!
//! - a title becomes a centered paragraph whose single run is the
//!   concatenation of the block's run texts, with no inline styling (run
//!   style information is deliberately discarded for titles);
//! - a heading becomes one bold run carrying the concatenated text, at a
//!   font size drawn from a fixed six-entry table indexed by the heading
//!   level, clamped to the smallest entry for deep levels (inline styles
//!   other than bold are likewise discarded);
//! - a paragraph becomes one output run per input run, in order, each
//!   carrying the run's style flags verbatim and preserving its whitespace.

use vstd::prelude::*;
use vstd::string::StringExecFns;

use crate::content::Content;
use crate::content::ContentView;
use crate::content::Document;
use crate::content::Text;
use crate::content::TextView;
use crate::style::Style;

verus! {

/// One output run of the rendering plan: literal text plus the formatting
/// the back end applies to it.  `underline` asks for the fixed default
/// underline color; `font_size` is in half-points; `preserve_space` asks the
/// back end to keep the text's whitespace exactly as given.
#[derive(Debug)]
pub struct RenderRun {
    pub text: String,
    pub bold: bool,
    pub italics: bool,
    pub strikethrough: bool,
    pub underline: bool,
    pub font_size: Option<usize>,
    pub preserve_space: bool,
}

/// The mathematical view of an output run.
#[verifier::ext_equal]
pub struct RenderRunView {
    pub text: Seq<char>,
    pub bold: bool,
    pub italics: bool,
    pub strikethrough: bool,
    pub underline: bool,
    pub font_size: Option<usize>,
    pub preserve_space: bool,
}

impl View for RenderRun {
    type V = RenderRunView;

    open spec fn view(&self) -> RenderRunView {
        RenderRunView {
            text: self.text@,
            bold: self.bold,
            italics: self.italics,
            strikethrough: self.strikethrough,
            underline: self.underline,
            font_size: self.font_size,
            preserve_space: self.preserve_space,
        }
    }
}

impl DeepView for RenderRun {
    type V = RenderRunView;

    open spec fn deep_view(&self) -> RenderRunView {
        self@
    }
}

/// One output paragraph of the rendering plan: its justification and its
/// runs, in order.
#[derive(Debug)]
pub struct RenderParagraph {
    pub centered: bool,
    pub runs: Vec<RenderRun>,
}

/// The mathematical view of an output paragraph.
#[verifier::ext_equal]
pub struct RenderParagraphView {
    pub centered: bool,
    pub runs: Seq<RenderRunView>,
}

impl View for RenderParagraph {
    type V = RenderParagraphView;

    open spec fn view(&self) -> RenderParagraphView {
        RenderParagraphView { centered: self.centered, runs: self.runs.deep_view() }
    }
}

impl DeepView for RenderParagraph {
    type V = RenderParagraphView;

    open spec fn deep_view(&self) -> RenderParagraphView {
        self@
    }
}

/// The whole rendering plan: one output paragraph per content block, in
/// document order.
pub type RenderPlan = Vec<RenderParagraph>;

/// The concatenation of the texts of a run list, in order.
pub open spec fn concat_text(runs: Seq<TextView>) -> Seq<char>
    decreases runs.len(),
{
    if runs.len() == 0 {
        Seq::empty()
    } else {
        runs[0].text + concat_text(runs.skip(1))
    }
}

/// The heading font size in half-points: the fixed ordered table
/// 36, 24, 20, 18, 16, 14, indexed by the heading level and clamped to the
/// last entry for levels past the table, so the size decreases as the level
/// grows.
pub open spec fn heading_size(level: usize) -> usize {
    if level == 0 {
        36
    } else if level == 1 {
        24
    } else if level == 2 {
        20
    } else if level == 3 {
        18
    } else if level == 4 {
        16
    } else {
        14
    }
}

/// An unstyled output run: just text, no formatting, default whitespace.
pub open spec fn plain_run(text: Seq<char>) -> RenderRunView {
    RenderRunView {
        text,
        bold: false,
        italics: false,
        strikethrough: false,
        underline: false,
        font_size: None,
        preserve_space: false,
    }
}

/// The output run of one styled text run of a paragraph block: the style
/// flags carried over verbatim, whitespace preserved, no font size override.
pub open spec fn styled_run(r: TextView) -> RenderRunView {
    RenderRunView {
        text: r.text,
        bold: r.styles.bold,
        italics: r.styles.italics,
        strikethrough: r.styles.strikethrough,
        underline: r.styles.underline,
        font_size: None,
        preserve_space: true,
    }
}

/// The output paragraph of one content block.
pub open spec fn render_block(c: ContentView) -> RenderParagraphView {
    match c {
        ContentView::Title(runs) => RenderParagraphView {
            centered: true,
            runs: seq![plain_run(concat_text(runs))],
        },
        ContentView::Heading { level, text } => RenderParagraphView {
            centered: false,
            runs: seq![
                RenderRunView {
                    text: concat_text(text),
                    bold: true,
                    italics: false,
                    strikethrough: false,
                    underline: false,
                    font_size: Some(heading_size(level)),
                    preserve_space: false,
                },
            ],
        },
        ContentView::Paragraph(runs) => RenderParagraphView {
            centered: false,
            runs: Seq::new(runs.len(), |i: int| styled_run(runs[i])),
        },
    }
}

/// The rendering plan of a whole document: one output paragraph per block,
/// in document order.
pub open spec fn render_spec(doc: Seq<ContentView>) -> Seq<RenderParagraphView> {
    Seq::new(doc.len(), |i: int| render_block(doc[i]))
}

/// Concatenates the texts of a run list into one string.
fn concat_runs(runs: &Vec<Text>) -> (s: String)
    ensures
        s@ == concat_text(runs.deep_view()),
{
    let ghost rv = runs.deep_view();
    let mut s = String::new();
    let mut k: usize = 0;
    proof {
        assert(rv.skip(0) =~= rv);
        assert(s@ + concat_text(rv) =~= concat_text(rv));
    }
    while k < runs.len()
        invariant
            k <= runs@.len(),
            rv == runs.deep_view(),
            rv.len() == runs@.len(),
            s@ + concat_text(rv.skip(k as int)) == concat_text(rv),
        decreases runs@.len() - k,
    {
        let ghost rem = rv.skip(k as int);
        proof {
            assert(rem[0] == rv[k as int]);
            assert(rem.skip(1) =~= rv.skip(k as int + 1));
        }
        let ghost prev = s@;
        s.append(runs[k].text.as_str());
        k = k + 1;
        proof {
            assert(s@ + concat_text(rv.skip(k as int)) =~= prev + concat_text(rem));
        }
    }
    proof {
        assert(rv.skip(k as int) =~= Seq::<TextView>::empty());
        assert(s@ + concat_text(rv.skip(k as int)) =~= s@);
    }
    s
}

/// Looks up the heading font size for a level.
fn heading_size_of(level: usize) -> (s: usize)
    ensures
        s == heading_size(level),
{
    if level == 0 {
        36
    } else if level == 1 {
        24
    } else if level == 2 {
        20
    } else if level == 3 {
        18
    } else if level == 4 {
        16
    } else {
        14
    }
}

/// The fixed default color, as a six-digit hex string, that the back end
/// uses for underlined runs.
pub fn underline_color() -> (s: String)
    ensures
        s@ == "000000"@,
{
    "000000".to_owned()
}

/// Renders one content block into its output paragraph.
fn render_block_exec(block: &Content) -> (p: RenderParagraph)
    ensures
        p@ == render_block(block@),
{
    match block {
        Content::Title(runs) => {
            let text = concat_runs(runs);
            let mut out: Vec<RenderRun> = Vec::new();
            out.push(
                RenderRun {
                    text,
                    bold: false,
                    italics: false,
                    strikethrough: false,
                    underline: false,
                    font_size: None,
                    preserve_space: false,
                },
            );
            let p = RenderParagraph { centered: true, runs: out };
            proof {
                assert(p@.runs =~= render_block(block@).runs);
                assert(p@ =~= render_block(block@));
            }
            p
        },
        Content::Heading { level, text } => {
            let joined = concat_runs(text);
            let size = heading_size_of(*level);
            let mut out: Vec<RenderRun> = Vec::new();
            out.push(
                RenderRun {
                    text: joined,
                    bold: true,
                    italics: false,
                    strikethrough: false,
                    underline: false,
                    font_size: Some(size),
                    preserve_space: false,
                },
            );
            let p = RenderParagraph { centered: false, runs: out };
            proof {
                assert(p@.runs =~= render_block(block@).runs);
                assert(p@ =~= render_block(block@));
            }
            p
        },
        Content::Paragraph(runs) => {
            let ghost rv = runs.deep_view();
            let mut out: Vec<RenderRun> = Vec::new();
            let mut k: usize = 0;
            proof {
                assert(out.deep_view() =~= Seq::new(0nat, |i: int| styled_run(rv[i])));
            }
            while k < runs.len()
                invariant
                    k <= runs@.len(),
                    rv == runs.deep_view(),
                    rv.len() == runs@.len(),
                    out.deep_view() == Seq::new(k as nat, |i: int| styled_run(rv[i])),
                decreases runs@.len() - k,
            {
                let ghost prev = out.deep_view();
                let r = &runs[k];
                out.push(
                    RenderRun {
                        text: r.text.clone(),
                        bold: r.styles.has(Style::Bold),
                        italics: r.styles.has(Style::Italics),
                        strikethrough: r.styles.has(Style::Strikethrough),
                        underline: r.styles.has(Style::Underline),
                        font_size: None,
                        preserve_space: true,
                    },
                );
                k = k + 1;
                proof {
                    assert(out.deep_view() =~= prev.push(styled_run(rv[k - 1])));
                    assert(out.deep_view() =~= Seq::new(k as nat, |i: int| styled_run(rv[i])));
                }
            }
            let p = RenderParagraph { centered: false, runs: out };
            proof {
                assert(p@.runs =~= render_block(block@).runs);
                assert(p@ =~= render_block(block@));
            }
            p
        },
    }
}

/// Renders a whole document into its plan: one output paragraph per content
/// block, in document order.
pub fn render(doc: &Document) -> (plan: RenderPlan)
    ensures
        plan.deep_view() == render_spec(doc.deep_view()),
{
    let ghost dv = doc.deep_view();
    let mut plan: RenderPlan = Vec::new();
    let mut k: usize = 0;
    proof {
        assert(plan.deep_view() =~= Seq::new(0nat, |i: int| render_block(dv[i])));
    }
    while k < doc.len()
        invariant
            k <= doc@.len(),
            dv == doc.deep_view(),
            dv.len() == doc@.len(),
            plan.deep_view() == Seq::new(k as nat, |i: int| render_block(dv[i])),
        decreases doc@.len() - k,
    {
        let ghost prev = plan.deep_view();
        let p = render_block_exec(&doc[k]);
        plan.push(p);
        k = k + 1;
        proof {
            assert(plan.deep_view() =~= prev.push(render_block(dv[k - 1])));
            assert(plan.deep_view() =~= Seq::new(k as nat, |i: int| render_block(dv[i])));
        }
    }
    proof {
        assert(plan.deep_view() =~= render_spec(dv));
    }
    plan
}

} // verus!
