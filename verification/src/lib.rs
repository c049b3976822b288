//! A compiler for a small lightweight markup language: each paragraph of the
//! source carries a block marker (`P`, `T`, `H` plus a digit, `B`) and a body
//! in which two-character toggles (`//`, `__`, `**`, `--`) switch inline
//! styles on and off.  The library lexes the source into styled text runs,
//! classifies the result into an ordered document of content blocks, and maps
//! that document onto a plain paragraph/run rendering plan that a word
//! processing back end can serialize.

pub mod analysis;
pub mod content;
pub mod export;
pub mod laws;
pub mod parse;
pub mod scan;
pub mod style;

pub use content::CompileError;
pub use content::Content;
pub use content::ContentView;
pub use content::Document;
pub use content::Text;
pub use content::TextView;
pub use content::Token;
pub use content::TokenView;
pub use export::RenderParagraph;
pub use export::RenderPlan;
pub use export::RenderRun;
pub use export::render;
pub use export::underline_color;
pub use parse::chars_of;
pub use parse::collect_tokens;
pub use parse::compile;
pub use parse::compile_str;
pub use parse::lexerize;
pub use parse::split_paragraphs;
pub use parse::tok2cont;
pub use scan::scan_paragraph;
pub use style::Style;
pub use style::StyleSet;
