//! The library's laws: properties of the scanner, the lexer, the classifier
//! and the normalizer, stated over the same spec functions the executable
//! contracts use, and proved once and for all inputs.

use vstd::prelude::*;

use crate::content::CompileError;
use crate::content::ContentView;
use crate::content::TextView;
use crate::content::TokenView;
use crate::content::wf_content;
use crate::content::wf_document;
use crate::content::wf_token;
use crate::export::concat_text;
use crate::parse::classify_spec;
use crate::parse::tokens_result_view;
use crate::parse::lex_all;
use crate::scan::collapse_spaces;
use crate::scan::digit_val;
use crate::scan::flush;
use crate::scan::is_space_char;
use crate::scan::normalize_body;
use crate::scan::scan_paragraph_spec;
use crate::scan::scan_runs;
use crate::scan::token_result_view;
use crate::scan::toggle_pair;
use crate::scan::trim_leading;
use crate::scan::trim_trailing;
use crate::style::Style;
use crate::style::StyleSet;

verus! {

/// How many toggles of the style `s` the scan of `body` performs.
pub open spec fn toggle_count(body: Seq<char>, s: Style) -> nat
    decreases body.len(),
{
    if body.len() >= 2 && toggle_pair(body[0], body[1]) is Some {
        (if toggle_pair(body[0], body[1]) == Some(s) {
            1nat
        } else {
            0nat
        }) + toggle_count(body.skip(2), s)
    } else if body.len() >= 1 {
        toggle_count(body.skip(1), s)
    } else {
        0
    }
}

/// The style accumulator at the end of the scan of `body`, started at
/// `styles`.
pub open spec fn final_styles(body: Seq<char>, styles: StyleSet) -> StyleSet
    decreases body.len(),
{
    if body.len() >= 2 && toggle_pair(body[0], body[1]) is Some {
        final_styles(body.skip(2), styles.toggled(toggle_pair(body[0], body[1])->0))
    } else if body.len() >= 1 {
        final_styles(body.skip(1), styles)
    } else {
        styles
    }
}

/// Toggle symmetry: for every style and every paragraph body, an even count
/// of toggles of that style returns its membership to the initial state by
/// the end of the body, and an odd count leaves it flipped — scanning never
/// fails on unbalanced toggles.
pub proof fn lemma_toggle_symmetry(body: Seq<char>, init: StyleSet, s: Style)
    ensures
        final_styles(body, init).contains(s) == if toggle_count(body, s) % 2 == 0 {
            init.contains(s)
        } else {
            !init.contains(s)
        },
    decreases body.len(),
{
    if body.len() >= 2 && toggle_pair(body[0], body[1]) is Some {
        let st = toggle_pair(body[0], body[1])->0;
        lemma_toggle_symmetry(body.skip(2), init.toggled(st), s);
        if st == s {
            assert(init.toggled(st).contains(s) == !init.contains(s));
            assert(toggle_count(body, s) == 1 + toggle_count(body.skip(2), s));
        } else {
            assert(init.toggled(st).contains(s) == init.contains(s));
            assert(toggle_count(body, s) == toggle_count(body.skip(2), s));
        }
    } else if body.len() >= 1 {
        lemma_toggle_symmetry(body.skip(1), init, s);
    }
}

/// The text still buffered when the scan of `body` reaches the end of the
/// paragraph, having started with `buf` already buffered.
pub open spec fn trailing_buf(body: Seq<char>, buf: Seq<char>) -> Seq<char>
    decreases body.len(),
{
    if body.len() >= 2 && toggle_pair(body[0], body[1]) is Some {
        trailing_buf(body.skip(2), Seq::empty())
    } else if body.len() >= 1 {
        trailing_buf(body.skip(1), buf.push(body[0]))
    } else {
        buf
    }
}

/// Whatever style set is open at the end of the paragraph — balanced or not —
/// is carried by the final run: when text remains after the last toggle, the
/// scan's last run holds exactly that text with exactly the end-of-body
/// style set.
pub proof fn lemma_final_run(body: Seq<char>, styles: StyleSet, buf: Seq<char>)
    requires
        trailing_buf(body, buf).len() > 0,
    ensures
        scan_runs(body, styles, buf).len() > 0,
        scan_runs(body, styles, buf).last() == (TextView {
            text: trailing_buf(body, buf),
            styles: final_styles(body, styles),
        }),
    decreases body.len(),
{
    if body.len() >= 2 && toggle_pair(body[0], body[1]) is Some {
        let st = toggle_pair(body[0], body[1])->0;
        lemma_final_run(body.skip(2), styles.toggled(st), Seq::empty());
        let rec = scan_runs(body.skip(2), styles.toggled(st), Seq::empty());
        assert(scan_runs(body, styles, buf) == flush(buf, styles) + rec);
        assert((flush(buf, styles) + rec).last() == rec.last());
    } else if body.len() >= 1 {
        lemma_final_run(body.skip(1), styles, buf.push(body[0]));
    } else {
        assert(scan_runs(body, styles, buf) == flush(buf, styles));
    }
}

/// A character sequence free of toggle markers.
pub open spec fn toggle_free(s: Seq<char>) -> bool {
    forall|i: int| 0 <= i && i + 1 < s.len() ==> #[trigger] toggle_pair(s[i], s[i + 1]) is None
}

/// The body with its toggle markers removed, in order.
pub open spec fn strip_toggles(body: Seq<char>) -> Seq<char>
    decreases body.len(),
{
    if body.len() >= 2 && toggle_pair(body[0], body[1]) is Some {
        strip_toggles(body.skip(2))
    } else if body.len() >= 1 {
        seq![body[0]] + strip_toggles(body.skip(1))
    } else {
        Seq::empty()
    }
}

/// Text concatenation distributes over appending run lists.
pub proof fn lemma_concat_text_append(a: Seq<TextView>, b: Seq<TextView>)
    ensures
        concat_text(a + b) == concat_text(a) + concat_text(b),
    decreases a.len(),
{
    if a.len() == 0 {
        assert(a + b =~= b);
        assert(concat_text(a) + concat_text(b) =~= concat_text(b));
    } else {
        assert((a + b).skip(1) =~= a.skip(1) + b);
        assert((a + b)[0] == a[0]);
        lemma_concat_text_append(a.skip(1), b);
        assert(a[0].text + (concat_text(a.skip(1)) + concat_text(b)) =~= (a[0].text + concat_text(
            a.skip(1),
        )) + concat_text(b));
    }
}

/// The concatenated text of a flushed buffer is the buffer itself, whether
/// or not it produced a run.
pub proof fn lemma_concat_flush(buf: Seq<char>, styles: StyleSet)
    ensures
        concat_text(flush(buf, styles)) == buf,
{
    if buf.len() == 0 {
        assert(concat_text(flush(buf, styles)) =~= buf);
    } else {
        let fl = flush(buf, styles);
        assert(fl.len() == 1 && fl[0] == (TextView { text: buf, styles }));
        assert(fl.skip(1) =~= Seq::<TextView>::empty());
        assert(concat_text(fl.skip(1)) =~= Seq::<char>::empty());
        assert(concat_text(fl) =~= buf);
    }
}

/// Run boundary correctness, first half: flushing at every toggle and at the
/// end of the body loses and duplicates no text — the concatenation of the
/// scanned runs' texts is the buffered text followed by the body with its
/// toggle markers removed.
pub proof fn lemma_scan_text(body: Seq<char>, styles: StyleSet, buf: Seq<char>)
    ensures
        concat_text(scan_runs(body, styles, buf)) == buf + strip_toggles(body),
    decreases body.len(),
{
    if body.len() >= 2 && toggle_pair(body[0], body[1]) is Some {
        let st = toggle_pair(body[0], body[1])->0;
        let rec = scan_runs(body.skip(2), styles.toggled(st), Seq::empty());
        lemma_scan_text(body.skip(2), styles.toggled(st), Seq::empty());
        assert(Seq::<char>::empty() + strip_toggles(body.skip(2)) =~= strip_toggles(body.skip(2)));
        lemma_concat_text_append(flush(buf, styles), rec);
        lemma_concat_flush(buf, styles);
        assert(concat_text(scan_runs(body, styles, buf)) =~= buf + strip_toggles(body));
    } else if body.len() >= 1 {
        lemma_scan_text(body.skip(1), styles, buf.push(body[0]));
        assert(buf + (seq![body[0]] + strip_toggles(body.skip(1))) =~= buf.push(body[0])
            + strip_toggles(body.skip(1)));
    } else {
        lemma_concat_flush(buf, styles);
        assert(buf + strip_toggles(body) =~= buf);
    }
}

/// Run boundary correctness, second half: no run ever spans a style change —
/// every run the scan produces is free of toggle markers, provided the text
/// already buffered is (and does not end half way into one).
pub proof fn lemma_runs_toggle_free(body: Seq<char>, styles: StyleSet, buf: Seq<char>)
    requires
        toggle_free(buf),
        buf.len() > 0 && body.len() > 0 ==> toggle_pair(buf.last(), body[0]) is None,
    ensures
        forall|k: int|
            0 <= k < scan_runs(body, styles, buf).len() ==> toggle_free(
                #[trigger] scan_runs(body, styles, buf)[k].text,
            ),
    decreases body.len(),
{
    let rs = scan_runs(body, styles, buf);
    if body.len() >= 2 && toggle_pair(body[0], body[1]) is Some {
        let st = toggle_pair(body[0], body[1])->0;
        let rec = scan_runs(body.skip(2), styles.toggled(st), Seq::empty());
        assert(toggle_free(Seq::<char>::empty()));
        lemma_runs_toggle_free(body.skip(2), styles.toggled(st), Seq::empty());
        assert(rs == flush(buf, styles) + rec);
        assert forall|k: int| 0 <= k < rs.len() implies toggle_free(#[trigger] rs[k].text) by {
            if k < flush(buf, styles).len() {
                assert(rs[k] == flush(buf, styles)[k]);
                assert(rs[k].text == buf);
            } else {
                assert(rs[k] == rec[k - flush(buf, styles).len()]);
            }
        }
    } else if body.len() >= 1 {
        let buf2 = buf.push(body[0]);
        assert forall|i: int| 0 <= i && i + 1 < buf2.len() implies #[trigger] toggle_pair(
            buf2[i],
            buf2[i + 1],
        ) is None by {
            if i + 1 < buf.len() {
                assert(buf2[i] == buf[i] && buf2[i + 1] == buf[i + 1]);
            } else {
                assert(i + 1 == buf.len());
                assert(buf2[i] == buf.last() && buf2[i + 1] == body[0]);
            }
        }
        if buf2.len() > 0 && body.skip(1).len() > 0 {
            assert(body.len() >= 2);
            assert(toggle_pair(body[0], body[1]) is None);
            assert(buf2.last() == body[0] && body.skip(1)[0] == body[1]);
        }
        lemma_runs_toggle_free(body.skip(1), styles, buf2);
        assert(rs == scan_runs(body.skip(1), styles, buf2));
        assert forall|k: int| 0 <= k < rs.len() implies toggle_free(#[trigger] rs[k].text) by {
            assert(rs[k] == scan_runs(body.skip(1), styles, buf2)[k]);
            assert(toggle_free(scan_runs(body.skip(1), styles, buf2)[k].text));
        }
    } else {
        assert forall|k: int| 0 <= k < rs.len() implies toggle_free(#[trigger] rs[k].text) by {
            assert(rs[k].text == buf);
        }
    }
}

/// A body is in normal form when it neither starts nor ends with whitespace,
/// every whitespace character in it is a literal space, and no two
/// whitespace characters are adjacent.
pub open spec fn normalized(s: Seq<char>) -> bool {
    &&& s.len() > 0 ==> !is_space_char(s[0]) && !is_space_char(s.last())
    &&& forall|i: int| 0 <= i < s.len() && #[trigger] is_space_char(s[i]) ==> s[i] == ' '
    &&& forall|i: int|
        0 <= i && i + 1 < s.len() && #[trigger] is_space_char(s[i]) ==> !is_space_char(s[i + 1])
}

/// Trimming the trailing whitespace leaves no trailing whitespace.
pub proof fn lemma_trim_trailing_props(s: Seq<char>)
    ensures
        trim_trailing(s).len() > 0 ==> !is_space_char(trim_trailing(s).last()),
    decreases s.len(),
{
    if s.len() > 0 && is_space_char(s.last()) {
        lemma_trim_trailing_props(s.drop_last());
    }
}

/// Trimming the leading whitespace leaves no leading whitespace and keeps
/// the last character.
pub proof fn lemma_trim_leading_props(s: Seq<char>)
    ensures
        trim_leading(s).len() > 0 ==> !is_space_char(trim_leading(s)[0]),
        trim_leading(s).len() > 0 ==> s.len() > 0 && trim_leading(s).last() == s.last(),
    decreases s.len(),
{
    if s.len() > 0 && is_space_char(s[0]) {
        lemma_trim_leading_props(s.skip(1));
        if trim_leading(s).len() > 0 {
            assert(s.skip(1).last() == s.last());
        }
    }
}

/// Collapsing whitespace runs yields only literal spaces for whitespace,
/// never two adjacent, and keeps a non-whitespace first and last character.
pub proof fn lemma_collapse_props(t: Seq<char>)
    ensures
        forall|i: int|
            0 <= i < collapse_spaces(t).len() && #[trigger] is_space_char(collapse_spaces(t)[i])
                ==> collapse_spaces(t)[i] == ' ',
        forall|i: int|
            0 <= i && i + 1 < collapse_spaces(t).len() && #[trigger] is_space_char(
                collapse_spaces(t)[i],
            ) ==> !is_space_char(collapse_spaces(t)[i + 1]),
        t.len() > 0 && !is_space_char(t[0]) ==> collapse_spaces(t).len() > 0 && collapse_spaces(
            t,
        )[0] == t[0],
        t.len() > 0 && !is_space_char(t.last()) ==> collapse_spaces(t).len() > 0 && collapse_spaces(
            t,
        ).last() == t.last(),
    decreases t.len(),
{
    let c = collapse_spaces(t);
    if t.len() == 0 {
    } else {
        lemma_collapse_props(t.skip(1));
        let c1 = collapse_spaces(t.skip(1));
        if is_space_char(t[0]) && t.len() >= 2 && is_space_char(t[1]) {
            assert(c == c1);
            assert(t.skip(1).last() == t.last());
            assert(t.skip(1)[0] == t[1]);
        } else {
            let head: Seq<char> = if is_space_char(t[0]) {
                seq![' ']
            } else {
                seq![t[0]]
            };
            assert(c == head + c1);
            assert(c.len() == 1 + c1.len());
            assert(c[0] == head[0]);
            assert forall|i: int| 1 <= i < c.len() implies c[i] == c1[i - 1] by {}
            if t.len() >= 2 {
                assert(t.skip(1)[0] == t[1]);
                assert(t.skip(1).last() == t.last());
            }
            if c1.len() > 0 {
                assert(c.last() == c1.last());
            }
            assert forall|i: int|
                0 <= i && i + 1 < c.len() && #[trigger] is_space_char(c[i]) implies !is_space_char(
                c[i + 1],
            ) by {
                if i == 0 {
                    if is_space_char(t[0]) {
                        assert(!(t.len() >= 2 && is_space_char(t[1])));
                        assert(c1.len() > 0);
                        assert(t.skip(1).len() > 0);
                        assert(!is_space_char(t.skip(1)[0]));
                        assert(c[1] == c1[0] && c1[0] == t.skip(1)[0]);
                    }
                } else {
                    assert(c[i] == c1[i - 1] && c[i + 1] == c1[i]);
                }
            }
        }
    }
}

/// A sequence whose whitespace is single literal spaces collapses to itself.
pub proof fn lemma_collapse_identity(t: Seq<char>)
    requires
        forall|i: int| 0 <= i < t.len() && #[trigger] is_space_char(t[i]) ==> t[i] == ' ',
        forall|i: int|
            0 <= i && i + 1 < t.len() && #[trigger] is_space_char(t[i]) ==> !is_space_char(
                t[i + 1],
            ),
    ensures
        collapse_spaces(t) == t,
    decreases t.len(),
{
    if t.len() == 0 {
        assert(collapse_spaces(t) =~= t);
    } else {
        assert forall|i: int|
            0 <= i < t.skip(1).len() && #[trigger] is_space_char(t.skip(1)[i]) implies t.skip(1)[i]
            == ' ' by {
            assert(t.skip(1)[i] == t[i + 1]);
        }
        assert forall|i: int|
            0 <= i && i + 1 < t.skip(1).len() && #[trigger] is_space_char(
                t.skip(1)[i],
            ) implies !is_space_char(t.skip(1)[i + 1]) by {
            assert(t.skip(1)[i] == t[i + 1] && t.skip(1)[i + 1] == t[i + 2]);
        }
        lemma_collapse_identity(t.skip(1));
        if is_space_char(t[0]) {
            assert(!(t.len() >= 2 && is_space_char(t[1])));
            assert(t[0] == ' ');
            assert(seq![' '] + t.skip(1) =~= t);
        } else {
            assert(seq![t[0]] + t.skip(1) =~= t);
        }
    }
}

/// Normalizing any body yields a body in normal form.
pub proof fn lemma_normalize_normalized(s: Seq<char>)
    ensures
        normalized(normalize_body(s)),
{
    let a = trim_trailing(s);
    let b = trim_leading(a);
    lemma_trim_trailing_props(s);
    lemma_trim_leading_props(a);
    lemma_collapse_props(b);
}

/// A body already in normal form normalizes to itself.
pub proof fn lemma_normalized_fixed(s: Seq<char>)
    requires
        normalized(s),
    ensures
        normalize_body(s) == s,
{
    assert(trim_trailing(s) == s);
    assert(trim_leading(s) == s);
    lemma_collapse_identity(s);
}

/// Whitespace normalization is idempotent: re-normalizing an already
/// normalized paragraph body changes nothing.
pub proof fn lemma_normalize_idempotent(s: Seq<char>)
    ensures
        normalize_body(normalize_body(s)) == normalize_body(s),
{
    lemma_normalize_normalized(s);
    lemma_normalized_fixed(normalize_body(s));
}

/// Order preservation: however the paragraphs are scanned — sequentially or
/// as a parallel map reassembled by index — the lexer's result is pinned
/// pointwise: the token at position `i` is exactly the scan of paragraph `i`
/// under index `i`, it succeeds exactly when every paragraph scans, and on
/// failure it carries the error of the first failing paragraph.
pub proof fn lemma_order_preservation(ps: Seq<Seq<char>>)
    ensures
        lex_all(ps) is Ok ==> lex_all(ps)->Ok_0.len() == ps.len(),
        lex_all(ps) is Ok ==> forall|i: int|
            0 <= i < ps.len() ==> #[trigger] scan_paragraph_spec(ps[i], i as usize) == Ok::<
                TokenView,
                CompileError,
            >(lex_all(ps)->Ok_0[i]),
        (forall|i: int| 0 <= i < ps.len() ==> #[trigger] scan_paragraph_spec(ps[i], i as usize)
            is Ok) ==> lex_all(ps) is Ok,
        lex_all(ps) is Err ==> exists|j: int|
            0 <= j < ps.len() && #[trigger] scan_paragraph_spec(ps[j], j as usize) == Err::<
                TokenView,
                CompileError,
            >(lex_all(ps)->Err_0) && (forall|k: int|
                0 <= k < j ==> #[trigger] scan_paragraph_spec(ps[k], k as usize) is Ok),
    decreases ps.len(),
{
    if ps.len() > 0 {
        let prefix = ps.drop_last();
        let m = ps.len() - 1;
        lemma_order_preservation(prefix);
        assert(forall|i: int| 0 <= i < m ==> prefix[i] == ps[i]);
        assert(ps.last() == ps[m]);
        match lex_all(prefix) {
            Err(e) => {
                let j = choose|j: int|
                    0 <= j < prefix.len() && #[trigger] scan_paragraph_spec(prefix[j], j as usize)
                        == Err::<TokenView, CompileError>(e) && (forall|k: int|
                        0 <= k < j ==> #[trigger] scan_paragraph_spec(prefix[k], k as usize)
                            is Ok);
                assert(scan_paragraph_spec(ps[j], j as usize) == Err::<TokenView, CompileError>(
                    e,
                ));
                assert(forall|k: int|
                    0 <= k < j ==> #[trigger] scan_paragraph_spec(ps[k], k as usize) is Ok);
                assert(!(scan_paragraph_spec(ps[j], j as usize) is Ok));
            },
            Ok(ts) => {
                match scan_paragraph_spec(ps[m], m as usize) {
                    Err(e) => {
                        assert(lex_all(ps) == Err::<Seq<TokenView>, CompileError>(e));
                        assert(forall|k: int|
                            0 <= k < m ==> #[trigger] scan_paragraph_spec(ps[k], k as usize)
                                is Ok);
                        assert(!(scan_paragraph_spec(ps[m], m as usize) is Ok));
                    },
                    Ok(t) => {
                        assert(lex_all(ps) == Ok::<Seq<TokenView>, CompileError>(ts.push(t)));
                        assert forall|i: int| 0 <= i < ps.len() implies #[trigger]
                        scan_paragraph_spec(ps[i], i as usize) == Ok::<TokenView, CompileError>(
                            lex_all(ps)->Ok_0[i],
                        ) by {
                            if i < m {
                                assert(scan_paragraph_spec(prefix[i], i as usize) == Ok::<
                                    TokenView,
                                    CompileError,
                                >(ts[i]));
                                assert(ts.push(t)[i] == ts[i]);
                            } else {
                                assert(ts.push(t)[i] == t);
                            }
                        }
                    },
                }
            },
        }
    }
}

/// Order preservation under any scheduling: when the paragraphs are scanned
/// independently — in whatever order some scheduler runs them — and the
/// results are put back at their paragraph's own index, any result list that
/// meets `collect_tokens`' contract reproduces exactly the sequential
/// lexer's outcome: the same tokens in source order, or the same first
/// error.
pub proof fn lemma_reassembly(
    ps: Seq<Seq<char>>,
    results: Seq<Result<crate::content::Token, CompileError>>,
    r: Result<Vec<crate::content::Token>, CompileError>,
)
    requires
        results.len() == ps.len(),
        forall|k: int|
            0 <= k < results.len() ==> #[trigger] token_result_view(results[k])
                == scan_paragraph_spec(ps[k], k as usize),
        r is Ok <==> (forall|k: int| 0 <= k < results.len() ==> #[trigger] results[k] is Ok),
        r is Ok ==> r->Ok_0.deep_view().len() == results.len(),
        r is Ok ==> forall|k: int|
            0 <= k < results.len() ==> #[trigger] r->Ok_0.deep_view()[k] == results[k]->Ok_0@,
        r is Err ==> exists|j: int|
            0 <= j < results.len() && r->Err_0 == #[trigger] results[j]->Err_0 && results[j] is Err
                && (forall|k: int| 0 <= k < j ==> #[trigger] results[k] is Ok),
    ensures
        tokens_result_view(r) == lex_all(ps),
{
    lemma_order_preservation(ps);
    match r {
        Ok(toks) => {
            assert forall|i: int| 0 <= i < ps.len() implies #[trigger] scan_paragraph_spec(
                ps[i],
                i as usize,
            ) is Ok by {
                assert(results[i] is Ok);
                assert(token_result_view(results[i]) == scan_paragraph_spec(ps[i], i as usize));
            }
            assert(lex_all(ps) is Ok);
            assert forall|i: int| 0 <= i < ps.len() implies toks.deep_view()[i] == lex_all(
                ps,
            )->Ok_0[i] by {
                assert(token_result_view(results[i]) == scan_paragraph_spec(ps[i], i as usize));
                assert(scan_paragraph_spec(ps[i], i as usize) == Ok::<TokenView, CompileError>(
                    lex_all(ps)->Ok_0[i],
                ));
                assert(token_result_view(results[i]) == Ok::<TokenView, CompileError>(
                    results[i]->Ok_0@,
                ));
            }
            assert(toks.deep_view() =~= lex_all(ps)->Ok_0);
        },
        Err(e) => {
            let j = choose|j: int|
                0 <= j < results.len() && e == #[trigger] results[j]->Err_0 && results[j] is Err
                    && (forall|k: int| 0 <= k < j ==> #[trigger] results[k] is Ok);
            assert(token_result_view(results[j]) == Err::<TokenView, CompileError>(e));
            assert(scan_paragraph_spec(ps[j], j as usize) == Err::<TokenView, CompileError>(e));
            if lex_all(ps) is Ok {
                assert(scan_paragraph_spec(ps[j], j as usize) == Ok::<TokenView, CompileError>(
                    lex_all(ps)->Ok_0[j],
                ));
            }
            assert(lex_all(ps) is Err);
            let j2 = choose|j2: int|
                0 <= j2 < ps.len() && #[trigger] scan_paragraph_spec(ps[j2], j2 as usize) == Err::<
                    TokenView,
                    CompileError,
                >(lex_all(ps)->Err_0) && (forall|k: int|
                    0 <= k < j2 ==> #[trigger] scan_paragraph_spec(ps[k], k as usize) is Ok);
            if j2 < j {
                assert(results[j2] is Ok);
                assert(token_result_view(results[j2]) == Ok::<TokenView, CompileError>(
                    results[j2]->Ok_0@,
                ));
                assert(scan_paragraph_spec(ps[j2], j2 as usize) is Ok);
            }
            if j < j2 {
                assert(scan_paragraph_spec(ps[j], j as usize) is Ok);
            }
            assert(j == j2);
        },
    }
}

/// The content block of one token: exactly one block for a paragraph, title
/// or heading token, and none exactly for a bookmark token.
pub open spec fn classify_token(t: TokenView) -> Option<ContentView> {
    match t {
        TokenView::Paragraph(runs) => Some(ContentView::Paragraph(runs)),
        TokenView::Title(runs) => Some(ContentView::Title(runs)),
        TokenView::Heading(level, runs) => Some(ContentView::Heading { level, text: runs }),
        TokenView::Bookmark(_) => None,
    }
}

/// Classification totality and order: classifying one more token appends
/// exactly that token's block — or nothing, exactly when the token is a
/// bookmark — after the blocks of the tokens before it.  No token is
/// silently dropped and none yields more than one block.
pub proof fn lemma_classify_snoc(ts: Seq<TokenView>, t: TokenView)
    ensures
        classify_spec(ts.push(t)) == classify_spec(ts) + (match classify_token(t) {
            Some(c) => seq![c],
            None => Seq::<ContentView>::empty(),
        }),
    decreases ts.len(),
{
    let tail = (match classify_token(t) {
        Some(c) => seq![c],
        None => Seq::<ContentView>::empty(),
    });
    if ts.len() == 0 {
        assert(ts.push(t)[0] == t);
        assert(ts.push(t).skip(1) =~= ts);
        assert(classify_spec(ts.push(t)) =~= classify_spec(ts) + tail);
    } else {
        assert(ts.push(t)[0] == ts[0]);
        assert(ts.push(t).skip(1) =~= ts.skip(1).push(t));
        lemma_classify_snoc(ts.skip(1), t);
        assert(classify_spec(ts.skip(1).push(t)) == classify_spec(ts.skip(1)) + tail);
        match ts[0] {
            TokenView::Bookmark(_) => {
                assert(classify_spec(ts.push(t)) == classify_spec(ts.skip(1).push(t)));
                assert(classify_spec(ts) == classify_spec(ts.skip(1)));
            },
            _ => {
                let c0 = classify_token(ts[0])->0;
                assert(classify_spec(ts.push(t)) == seq![c0] + classify_spec(ts.skip(1).push(t)));
                assert(classify_spec(ts) == seq![c0] + classify_spec(ts.skip(1)));
                assert(seq![c0] + (classify_spec(ts.skip(1)) + tail) =~= (seq![c0] + classify_spec(
                    ts.skip(1),
                )) + tail);
            },
        }
        assert(classify_spec(ts.push(t)) =~= classify_spec(ts) + tail);
    }
}

/// How many bookmark tokens a token sequence holds.
pub open spec fn bookmark_count(ts: Seq<TokenView>) -> nat
    decreases ts.len(),
{
    if ts.len() == 0 {
        0
    } else {
        (if ts[0] is Bookmark {
            1nat
        } else {
            0nat
        }) + bookmark_count(ts.skip(1))
    }
}

/// Classification totality, counted: every token becomes exactly one content
/// block except the bookmarks, which are dropped.
pub proof fn lemma_classify_len(ts: Seq<TokenView>)
    ensures
        classify_spec(ts).len() + bookmark_count(ts) == ts.len(),
    decreases ts.len(),
{
    if ts.len() > 0 {
        lemma_classify_len(ts.skip(1));
    }
}

/// Scan totality: every paragraph yields exactly one token or exactly one
/// typed error carrying the paragraph's own index — an unrecognized marker
/// exactly when the paragraph is empty or starts with none of `P`, `T`, `B`,
/// `H`, and a malformed heading exactly when it starts with `H` not followed
/// by a digit 1 to 9.
pub proof fn lemma_scan_paragraph_total(p: Seq<char>, idx: usize)
    ensures
        scan_paragraph_spec(p, idx) == Err::<TokenView, CompileError>(
            CompileError::UnrecognizedBlockMarker(idx),
        ) <==> (p.len() == 0 || (p[0] != 'P' && p[0] != 'T' && p[0] != 'B' && p[0] != 'H')),
        scan_paragraph_spec(p, idx) == Err::<TokenView, CompileError>(
            CompileError::MalformedHeadingMarker(idx),
        ) <==> (p.len() > 0 && p[0] == 'H' && (p.len() < 2 || digit_val(p[1]) == 0)),
        scan_paragraph_spec(p, idx) is Ok <==> (p.len() > 0 && (p[0] == 'P' || p[0] == 'T' || p[0]
            == 'B' || (p[0] == 'H' && p.len() >= 2 && digit_val(p[1]) >= 1))),
{
}

/// Every token the scanner produces is well formed: a heading level comes
/// from a single digit 1 to 9.
pub proof fn lemma_scan_wf(p: Seq<char>, idx: usize)
    ensures
        scan_paragraph_spec(p, idx) is Ok ==> wf_token(scan_paragraph_spec(p, idx)->Ok_0),
{
}

/// Every document the compiler produces is well formed: every heading level
/// lies between 1 and 9.
pub proof fn lemma_compile_wf(src: Seq<char>)
    ensures
        crate::parse::compile_spec(src) is Ok ==> wf_document(
            crate::parse::compile_spec(src)->Ok_0,
        ),
{
    let ps = crate::parse::split_paragraphs_spec(src);
    if crate::parse::compile_spec(src) is Ok {
        let ts = lex_all(ps)->Ok_0;
        lemma_order_preservation(ps);
        assert forall|i: int| 0 <= i < ts.len() implies wf_token(#[trigger] ts[i]) by {
            lemma_scan_wf(ps[i], i as usize);
        }
        lemma_classify_wf(ts);
    }
}

/// Classification preserves well-formedness: well-formed tokens yield a
/// well-formed document.
pub proof fn lemma_classify_wf(ts: Seq<TokenView>)
    requires
        forall|i: int| 0 <= i < ts.len() ==> wf_token(#[trigger] ts[i]),
    ensures
        wf_document(classify_spec(ts)),
    decreases ts.len(),
{
    if ts.len() > 0 {
        assert forall|i: int| 0 <= i < ts.skip(1).len() implies wf_token(
            #[trigger] ts.skip(1)[i],
        ) by {
            assert(ts.skip(1)[i] == ts[i + 1]);
        }
        lemma_classify_wf(ts.skip(1));
        let d = classify_spec(ts);
        let rest = classify_spec(ts.skip(1));
        assert forall|i: int| 0 <= i < d.len() implies wf_content(#[trigger] d[i]) by {
            if !(ts[0] is Bookmark) {
                if i == 0 {
                    assert(wf_token(ts[0]));
                } else {
                    assert(d[i] == rest[i - 1]);
                }
            } else {
                assert(d[i] == rest[i]);
            }
        }
    }
}

} // verus!
