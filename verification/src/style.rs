//! Inline styles and the style-set accumulator threaded through the scan.

use vstd::prelude::*;

verus! {

/// One inline style.  The set of styles is closed: these four and no others.
#[derive(Clone, Copy, Debug, PartialEq, Eq, Structural)]
pub enum Style {
    Bold,
    Italics,
    Underline,
    Strikethrough,
}

/// A set of inline styles, as a fixed-size boolean record: one flag per
/// member of the closed style set, so set semantics (no duplicates, order
/// irrelevant) hold by construction.
#[derive(Clone, Copy, Debug, PartialEq, Eq, Structural)]
pub struct StyleSet {
    pub bold: bool,
    pub italics: bool,
    pub underline: bool,
    pub strikethrough: bool,
}

impl StyleSet {
    /// The empty style set.
    pub open spec fn empty_set() -> StyleSet {
        StyleSet { bold: false, italics: false, underline: false, strikethrough: false }
    }

    /// Membership of one style in the set.
    pub open spec fn contains(self, s: Style) -> bool {
        match s {
            Style::Bold => self.bold,
            Style::Italics => self.italics,
            Style::Underline => self.underline,
            Style::Strikethrough => self.strikethrough,
        }
    }

    /// The set with the membership of `s` flipped: removed if present,
    /// inserted if absent.
    pub open spec fn toggled(self, s: Style) -> StyleSet {
        match s {
            Style::Bold => StyleSet { bold: !self.bold, ..self },
            Style::Italics => StyleSet { italics: !self.italics, ..self },
            Style::Underline => StyleSet { underline: !self.underline, ..self },
            Style::Strikethrough => StyleSet { strikethrough: !self.strikethrough, ..self },
        }
    }

    /// Builds the empty style set.
    pub fn new() -> (r: StyleSet)
        ensures
            r == StyleSet::empty_set(),
    {
        StyleSet { bold: false, italics: false, underline: false, strikethrough: false }
    }

    /// Tests membership of one style.
    pub fn has(&self, s: Style) -> (b: bool)
        ensures
            b == self.contains(s),
    {
        match s {
            Style::Bold => self.bold,
            Style::Italics => self.italics,
            Style::Underline => self.underline,
            Style::Strikethrough => self.strikethrough,
        }
    }

    /// Flips the membership of one style.
    pub fn toggle(&mut self, s: Style)
        ensures
            *final(self) == old(self).toggled(s),
    {
        match s {
            Style::Bold => {
                self.bold = !self.bold;
            },
            Style::Italics => {
                self.italics = !self.italics;
            },
            Style::Underline => {
                self.underline = !self.underline;
            },
            Style::Strikethrough => {
                self.strikethrough = !self.strikethrough;
            },
        }
    }
}

/// Toggling the same style twice restores the set; toggling it once flips
/// exactly that style's membership and no other.
pub proof fn lemma_toggle_involution(set: StyleSet, s: Style, t: Style)
    ensures
        set.toggled(s).toggled(s) == set,
        set.toggled(s).contains(s) == !set.contains(s),
        s != t ==> set.toggled(s).contains(t) == set.contains(t),
{
}

} // verus!
