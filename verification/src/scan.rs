//! The per-paragraph scanner: whitespace normalization, style toggles, and
//! the left-to-right scan that cuts a paragraph body into styled runs.
//!
//! Conventions fixed by this implementation:
//! - the strikethrough toggle is spelled `--` (the other three toggles are
//!   `//` for italics, `__` for underline and `**` for bold);
//! - a flush appends a run only when the buffered text is nonempty, so no
//!   empty runs appear around consecutive toggles or at the ends of a body.

use vstd::prelude::*;

use crate::content::CompileError;
use crate::content::Text;
use crate::content::TextView;
use crate::content::Token;
use crate::content::TokenView;
use crate::style::Style;
use crate::style::StyleSet;

verus! {

/// Relies on `alloc::string::String::push`: appends the given character to
/// the end of the string.
pub assume_specification[ String::push ](s: &mut String, c: char)
    ensures
        final(s)@ == old(s)@.push(c),
;

/// Whether a character counts as whitespace: the characters with the Unicode
/// `White_Space` property.
pub open spec fn is_space_char(c: char) -> bool {
    ||| c == ' '
    ||| c == '\t'
    ||| c == '\n'
    ||| c == '\u{b}'
    ||| c == '\u{c}'
    ||| c == '\r'
    ||| c == '\u{85}'
    ||| c == '\u{a0}'
    ||| c == '\u{1680}'
    ||| ('\u{2000}' <= c && c <= '\u{200a}')
    ||| c == '\u{2028}'
    ||| c == '\u{2029}'
    ||| c == '\u{202f}'
    ||| c == '\u{205f}'
    ||| c == '\u{3000}'
}

/// Tests whether a character counts as whitespace.
pub fn space_char(c: char) -> (b: bool)
    ensures
        b == is_space_char(c),
{
    c == ' ' || c == '\t' || c == '\n' || c == '\u{b}' || c == '\u{c}' || c == '\r' || c
        == '\u{85}' || c == '\u{a0}' || c == '\u{1680}' || ('\u{2000}' <= c && c <= '\u{200a}') || c
        == '\u{2028}' || c == '\u{2029}' || c == '\u{202f}' || c == '\u{205f}' || c == '\u{3000}'
}

/// The style toggled by a two-character marker, if the pair is a toggle:
/// `//` italics, `__` underline, `**` bold, `--` strikethrough.
pub open spec fn toggle_pair(a: char, b: char) -> Option<Style> {
    if a == '/' && b == '/' {
        Some(Style::Italics)
    } else if a == '_' && b == '_' {
        Some(Style::Underline)
    } else if a == '*' && b == '*' {
        Some(Style::Bold)
    } else if a == '-' && b == '-' {
        Some(Style::Strikethrough)
    } else {
        None
    }
}

/// Recognizes a two-character style toggle.
pub fn toggle_of(a: char, b: char) -> (r: Option<Style>)
    ensures
        r == toggle_pair(a, b),
{
    if a == '/' && b == '/' {
        Some(Style::Italics)
    } else if a == '_' && b == '_' {
        Some(Style::Underline)
    } else if a == '*' && b == '*' {
        Some(Style::Bold)
    } else if a == '-' && b == '-' {
        Some(Style::Strikethrough)
    } else {
        None
    }
}

/// The value of a heading digit: 1 through 9, or 0 for any character that is
/// not a valid heading digit.  `0` is excluded so that every heading level is
/// at least 1.
pub open spec fn digit_val(c: char) -> usize {
    match c {
        '1' => 1,
        '2' => 2,
        '3' => 3,
        '4' => 4,
        '5' => 5,
        '6' => 6,
        '7' => 7,
        '8' => 8,
        '9' => 9,
        _ => 0,
    }
}

/// Reads a heading digit; returns 0 when the character is not one.
pub fn digit_of(c: char) -> (d: usize)
    ensures
        d == digit_val(c),
{
    match c {
        '1' => 1,
        '2' => 2,
        '3' => 3,
        '4' => 4,
        '5' => 5,
        '6' => 6,
        '7' => 7,
        '8' => 8,
        '9' => 9,
        _ => 0,
    }
}

/// The sequence with all leading whitespace removed.
pub open spec fn trim_leading(s: Seq<char>) -> Seq<char>
    decreases s.len(),
{
    if s.len() > 0 && is_space_char(s[0]) {
        trim_leading(s.skip(1))
    } else {
        s
    }
}

/// The sequence with all trailing whitespace removed.
pub open spec fn trim_trailing(s: Seq<char>) -> Seq<char>
    decreases s.len(),
{
    if s.len() > 0 && is_space_char(s.last()) {
        trim_trailing(s.drop_last())
    } else {
        s
    }
}

/// Every interior run of one or more whitespace characters collapsed to a
/// single literal space.
pub open spec fn collapse_spaces(s: Seq<char>) -> Seq<char>
    decreases s.len(),
{
    if s.len() == 0 {
        Seq::empty()
    } else if is_space_char(s[0]) {
        if s.len() >= 2 && is_space_char(s[1]) {
            collapse_spaces(s.skip(1))
        } else {
            seq![' '] + collapse_spaces(s.skip(1))
        }
    } else {
        seq![s[0]] + collapse_spaces(s.skip(1))
    }
}

/// Whitespace normalization of a paragraph body: trailing and leading
/// whitespace trimmed, every interior whitespace run collapsed to one space.
pub open spec fn normalize_body(s: Seq<char>) -> Seq<char> {
    collapse_spaces(trim_leading(trim_trailing(s)))
}

/// The completed run for a buffer: one run carrying the buffered text and
/// the given style set, or no run at all when the buffer is empty.
pub open spec fn flush(buf: Seq<char>, styles: StyleSet) -> Seq<TextView> {
    if buf.len() == 0 {
        Seq::empty()
    } else {
        seq![TextView { text: buf, styles }]
    }
}

/// The runs produced by scanning `body` left to right with the style
/// accumulator `styles` and the text buffer `buf`: a toggle flushes the
/// buffer with the pre-toggle style set and flips the matched style; any
/// other character is buffered; the end of the body flushes what remains.
pub open spec fn scan_runs(body: Seq<char>, styles: StyleSet, buf: Seq<char>) -> Seq<TextView>
    decreases body.len(),
{
    if body.len() >= 2 && toggle_pair(body[0], body[1]) is Some {
        flush(buf, styles) + scan_runs(
            body.skip(2),
            styles.toggled(toggle_pair(body[0], body[1])->0),
            Seq::empty(),
        )
    } else if body.len() >= 1 {
        scan_runs(body.skip(1), styles, buf.push(body[0]))
    } else {
        flush(buf, styles)
    }
}

/// The runs of a raw paragraph body: whitespace is normalized first, then
/// the body is scanned with no open style and an empty buffer.
pub open spec fn body_runs(s: Seq<char>) -> Seq<TextView> {
    scan_runs(normalize_body(s), StyleSet::empty_set(), Seq::empty())
}

/// The token produced by scanning the paragraph at index `idx`, or the error
/// that aborts the compilation: the first character selects the block kind
/// (`P` paragraph, `T` title, `B` bookmark, `H` plus a digit 1-9 heading);
/// anything else is an unrecognized marker, and `H` without a valid digit is
/// a malformed heading.
pub open spec fn scan_paragraph_spec(p: Seq<char>, idx: usize) -> Result<TokenView, CompileError> {
    if p.len() == 0 {
        Err(CompileError::UnrecognizedBlockMarker(idx))
    } else if p[0] == 'P' {
        Ok(TokenView::Paragraph(body_runs(p.skip(1))))
    } else if p[0] == 'T' {
        Ok(TokenView::Title(body_runs(p.skip(1))))
    } else if p[0] == 'B' {
        Ok(TokenView::Bookmark(body_runs(p.skip(1))))
    } else if p[0] == 'H' {
        if p.len() >= 2 && digit_val(p[1]) >= 1 {
            Ok(TokenView::Heading(digit_val(p[1]), body_runs(p.skip(2))))
        } else {
            Err(CompileError::MalformedHeadingMarker(idx))
        }
    } else {
        Err(CompileError::UnrecognizedBlockMarker(idx))
    }
}

/// Copies the paragraph tail beginning at `start` and normalizes its
/// whitespace: trailing and leading whitespace go, interior whitespace runs
/// become single spaces.
pub fn normalize_from(para: &Vec<char>, start: usize) -> (out: Vec<char>)
    requires
        start <= para@.len(),
    ensures
        out@ == normalize_body(para@.skip(start as int)),
{
    let ghost body = para@.skip(start as int);
    let mut s: Vec<char> = Vec::new();
    let mut k: usize = start;
    while k < para.len()
        invariant
            start <= k <= para@.len(),
            s@ == para@.subrange(start as int, k as int),
        decreases para@.len() - k,
    {
        s.push(para[k]);
        k = k + 1;
        proof {
            assert(s@ =~= para@.subrange(start as int, k as int));
        }
    }
    proof {
        assert(s@ =~= body);
    }
    while s.len() > 0 && space_char(s[s.len() - 1])
        invariant
            trim_trailing(s@) == trim_trailing(body),
        decreases s@.len(),
    {
        let ghost prev = s@;
        s.pop();
        proof {
            assert(s@ =~= prev.drop_last());
        }
    }
    let ghost t = s@;
    proof {
        assert(trim_trailing(t) == t);
        assert(t == trim_trailing(body));
    }
    let mut i: usize = 0;
    proof {
        assert(t.skip(0) =~= t);
    }
    while i < s.len() && space_char(s[i])
        invariant
            0 <= i <= s@.len(),
            s@ == t,
            trim_leading(t.skip(i as int)) == trim_leading(t),
        decreases s@.len() - i,
    {
        i = i + 1;
        proof {
            assert(t.skip(i - 1 as int).skip(1) =~= t.skip(i as int));
        }
    }
    let ghost u = t.skip(i as int);
    proof {
        if i < s.len() {
            assert(u[0] == t[i as int]);
        }
        assert(trim_leading(u) == u);
        assert(u == trim_leading(trim_trailing(body)));
    }
    let mut out: Vec<char> = Vec::new();
    let mut j: usize = i;
    while j < s.len()
        invariant
            i <= j <= s@.len(),
            s@ == t,
            u == t.skip(i as int),
            out@ + collapse_spaces(t.skip(j as int)) == collapse_spaces(u),
        decreases s@.len() - j,
    {
        let ghost rem = t.skip(j as int);
        let ghost prev = out@;
        proof {
            assert(rem[0] == t[j as int]);
            if j + 1 < s.len() {
                assert(rem[1] == t[j as int + 1]);
            }
            assert(rem.skip(1) =~= t.skip(j as int + 1));
        }
        if space_char(s[j]) {
            if j + 1 < s.len() && space_char(s[j + 1]) {
                proof {
                    assert(collapse_spaces(rem) == collapse_spaces(rem.skip(1)));
                }
            } else {
                out.push(' ');
                proof {
                    assert(collapse_spaces(rem) == seq![' '] + collapse_spaces(rem.skip(1)));
                    assert(out@ + collapse_spaces(rem.skip(1)) =~= prev + collapse_spaces(rem));
                }
            }
        } else {
            out.push(s[j]);
            proof {
                assert(collapse_spaces(rem) == seq![rem[0]] + collapse_spaces(rem.skip(1)));
                assert(out@ + collapse_spaces(rem.skip(1)) =~= prev + collapse_spaces(rem));
            }
        }
        j = j + 1;
    }
    proof {
        assert(t.skip(j as int) =~= Seq::<char>::empty());
        assert(out@ + collapse_spaces(t.skip(j as int)) =~= out@);
    }
    out
}

/// Scans a normalized paragraph body left to right into its styled runs,
/// starting with no open style and an empty buffer.
pub fn scan_body(body: &Vec<char>) -> (runs: Vec<Text>)
    ensures
        runs.deep_view() == scan_runs(body@, StyleSet::empty_set(), Seq::empty()),
{
    let mut out: Vec<Text> = Vec::new();
    let mut styles = StyleSet::new();
    let mut buf = String::new();
    let mut i: usize = 0;
    proof {
        assert(body@.skip(0) =~= body@);
        assert(out.deep_view() =~= Seq::<TextView>::empty());
        assert(out.deep_view() + scan_runs(body@, styles, buf@) =~= scan_runs(
            body@,
            StyleSet::empty_set(),
            Seq::empty(),
        ));
    }
    while i < body.len()
        invariant
            i <= body@.len(),
            out.deep_view() + scan_runs(body@.skip(i as int), styles, buf@) == scan_runs(
                body@,
                StyleSet::empty_set(),
                Seq::empty(),
            ),
        decreases body@.len() - i,
    {
        let ghost rem = body@.skip(i as int);
        proof {
            assert(rem[0] == body@[i as int]);
            if i + 1 < body@.len() {
                assert(rem[1] == body@[i as int + 1]);
            }
        }
        let tog = if i + 1 < body.len() {
            toggle_of(body[i], body[i + 1])
        } else {
            None
        };
        match tog {
            Some(st) => {
                let ghost prev_out = out.deep_view();
                let ghost prev_buf = buf@;
                let ghost prev_styles = styles;
                if !buf.as_str().is_empty() {
                    out.push(Text { text: buf, styles });
                    buf = String::new();
                    proof {
                        assert(out.deep_view() =~= prev_out.push(
                            TextView { text: prev_buf, styles: prev_styles },
                        ));
                    }
                }
                styles.toggle(st);
                i = i + 2;
                proof {
                    assert(toggle_pair(rem[0], rem[1]) == Some(st));
                    assert(scan_runs(rem, prev_styles, prev_buf) == flush(prev_buf, prev_styles)
                        + scan_runs(rem.skip(2), prev_styles.toggled(st), Seq::empty()));
                    assert(styles == prev_styles.toggled(st));
                    assert(buf@ =~= Seq::<char>::empty());
                    assert(rem.skip(2) =~= body@.skip(i as int));
                    assert(out.deep_view() =~= prev_out + flush(prev_buf, prev_styles));
                    assert(out.deep_view() + scan_runs(body@.skip(i as int), styles, buf@) =~= (
                    prev_out + scan_runs(rem, prev_styles, prev_buf)));
                }
            },
            None => {
                buf.push(body[i]);
                i = i + 1;
                proof {
                    assert(rem.skip(1) =~= body@.skip(i as int));
                }
            },
        }
    }
    let ghost prev_out = out.deep_view();
    let ghost rem = body@.skip(i as int);
    proof {
        assert(rem =~= Seq::<char>::empty());
        assert(scan_runs(rem, styles, buf@) == flush(buf@, styles));
    }
    if !buf.as_str().is_empty() {
        let ghost prev_buf = buf@;
        out.push(Text { text: buf, styles });
        proof {
            assert(out.deep_view() =~= prev_out.push(TextView { text: prev_buf, styles }));
            assert(out.deep_view() =~= prev_out + flush(prev_buf, styles));
        }
    } else {
        proof {
            assert(out.deep_view() =~= prev_out + flush(buf@, styles));
        }
    }
    out
}

/// Scans one whole paragraph: classifies the block from its leading marker,
/// normalizes the remaining body, and cuts it into styled runs.  An unknown
/// marker or a malformed heading marker aborts with a typed error carrying
/// the paragraph's index.
pub fn scan_paragraph(para: &Vec<char>, idx: usize) -> (r: Result<Token, CompileError>)
    ensures
        token_result_view(r) == scan_paragraph_spec(para@, idx),
{
    if para.len() == 0 {
        return Err(CompileError::UnrecognizedBlockMarker(idx));
    }
    let c = para[0];
    if c == 'P' {
        let body = normalize_from(para, 1);
        Ok(Token::Paragraph(scan_body(&body)))
    } else if c == 'T' {
        let body = normalize_from(para, 1);
        Ok(Token::Title(scan_body(&body)))
    } else if c == 'B' {
        let body = normalize_from(para, 1);
        Ok(Token::Bookmark(scan_body(&body)))
    } else if c == 'H' {
        if para.len() >= 2 {
            let d = digit_of(para[1]);
            if d >= 1 {
                let body = normalize_from(para, 2);
                Ok(Token::Heading(d, scan_body(&body)))
            } else {
                Err(CompileError::MalformedHeadingMarker(idx))
            }
        } else {
            Err(CompileError::MalformedHeadingMarker(idx))
        }
    } else {
        Err(CompileError::UnrecognizedBlockMarker(idx))
    }
}

/// The view of a scan result: the token's view on success, the error itself
/// on failure.
pub open spec fn token_result_view(r: Result<Token, CompileError>) -> Result<
    TokenView,
    CompileError,
> {
    match r {
        Ok(t) => Ok(t@),
        Err(e) => Err(e),
    }
}

} // verus!
