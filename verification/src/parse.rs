//! The compilation pipeline: splitting the source into paragraphs, lexing
//! each paragraph into a token, classifying tokens into content blocks, and
//! the whole-source `compile` entry point.
//!
//! The paragraph separator is the backslash character.  Paragraphs carry no
//! cross-paragraph state, so they may be scanned independently and in any
//! order; `collect_tokens` reassembles independently produced results in
//! paragraph order and stops at the first error, exactly as the sequential
//! `lexerize` does.

use vstd::prelude::*;

use crate::content::CompileError;
use crate::content::Content;
use crate::content::ContentView;
use crate::content::Document;
use crate::content::Token;
use crate::content::TokenView;
use crate::scan::scan_paragraph;
use crate::scan::scan_paragraph_spec;

verus! {

/// The paragraphs of the source: the segments between backslash separators,
/// accumulated left to right.  `cur` is the segment being read and `acc` the
/// segments already complete.
pub open spec fn split_acc(s: Seq<char>, cur: Seq<char>, acc: Seq<Seq<char>>) -> Seq<Seq<char>>
    decreases s.len(),
{
    if s.len() == 0 {
        acc.push(cur)
    } else if s[0] == '\\' {
        split_acc(s.skip(1), Seq::empty(), acc.push(cur))
    } else {
        split_acc(s.skip(1), cur.push(s[0]), acc)
    }
}

/// The paragraphs of the source, in source order.  A source with no
/// separator is one paragraph; every separator ends one paragraph and begins
/// the next, so an empty source still holds one (empty) paragraph.
pub open spec fn split_paragraphs_spec(s: Seq<char>) -> Seq<Seq<char>> {
    split_acc(s, Seq::empty(), Seq::empty())
}

/// Splits the source at every backslash separator, in source order.
pub fn split_paragraphs(input: &Vec<char>) -> (ps: Vec<Vec<char>>)
    ensures
        ps.deep_view() == split_paragraphs_spec(input@),
{
    let mut ps: Vec<Vec<char>> = Vec::new();
    let mut cur: Vec<char> = Vec::new();
    let mut i: usize = 0;
    proof {
        assert(input@.skip(0) =~= input@);
        assert(ps.deep_view() =~= Seq::<Seq<char>>::empty());
        assert(cur@ =~= Seq::<char>::empty());
    }
    while i < input.len()
        invariant
            i <= input@.len(),
            cur.deep_view() == cur@,
            split_acc(input@.skip(i as int), cur@, ps.deep_view()) == split_paragraphs_spec(
                input@,
            ),
        decreases input@.len() - i,
    {
        let ghost rem = input@.skip(i as int);
        let ghost prev_ps = ps.deep_view();
        let ghost prev_cur = cur@;
        proof {
            assert(rem[0] == input@[i as int]);
            assert(rem.skip(1) =~= input@.skip(i as int + 1));
        }
        let c = input[i];
        if c == '\\' {
            ps.push(cur);
            cur = Vec::new();
            proof {
                assert(ps.deep_view() =~~= prev_ps.push(prev_cur));
                assert(cur@ =~= Seq::<char>::empty());
            }
        } else {
            cur.push(c);
        }
        i = i + 1;
        proof {
            assert(cur.deep_view() =~= cur@);
        }
    }
    proof {
        assert(input@.skip(i as int) =~= Seq::<char>::empty());
    }
    let ghost prev_ps = ps.deep_view();
    let ghost prev_cur = cur@;
    ps.push(cur);
    proof {
        assert(ps.deep_view() =~~= prev_ps.push(prev_cur));
    }
    ps
}

/// The tokens of the given paragraphs, scanned in paragraph order, where the
/// paragraph at position `i` carries index `i`: all the tokens when every
/// paragraph scans, otherwise the error of the first paragraph that fails.
pub open spec fn lex_all(ps: Seq<Seq<char>>) -> Result<Seq<TokenView>, CompileError>
    decreases ps.len(),
{
    if ps.len() == 0 {
        Ok(Seq::empty())
    } else {
        match lex_all(ps.drop_last()) {
            Err(e) => Err(e),
            Ok(ts) => match scan_paragraph_spec(ps.last(), (ps.len() - 1) as usize) {
                Err(e) => Err(e),
                Ok(t) => Ok(ts.push(t)),
            },
        }
    }
}

/// The tokens of a whole source: its paragraphs scanned in source order.
pub open spec fn lexerize_spec(src: Seq<char>) -> Result<Seq<TokenView>, CompileError> {
    lex_all(split_paragraphs_spec(src))
}

/// The view of a lexer result: the token views in order on success, the
/// error itself on failure.
pub open spec fn tokens_result_view(r: Result<Vec<Token>, CompileError>) -> Result<
    Seq<TokenView>,
    CompileError,
> {
    match r {
        Ok(ts) => Ok(ts.deep_view()),
        Err(e) => Err(e),
    }
}

/// Once some prefix of the paragraphs fails to lex, the whole paragraph list
/// fails with the same error.
pub proof fn lemma_lex_all_err_extends(ps: Seq<Seq<char>>, m: int)
    requires
        0 <= m <= ps.len(),
        lex_all(ps.take(m)) is Err,
    ensures
        lex_all(ps) == lex_all(ps.take(m)),
    decreases ps.len() - m,
{
    if m == ps.len() {
        assert(ps.take(m) =~= ps);
    } else {
        assert(ps.take(m + 1).drop_last() =~= ps.take(m));
        assert(lex_all(ps.take(m + 1)) == lex_all(ps.take(m)));
        lemma_lex_all_err_extends(ps, m + 1);
    }
}

/// Scans every paragraph in source order into its token; stops at the first
/// paragraph whose marker is unrecognized or malformed and reports its index.
pub fn lexerize(input: &Vec<char>) -> (r: Result<Vec<Token>, CompileError>)
    ensures
        tokens_result_view(r) == lexerize_spec(input@),
{
    let ps = split_paragraphs(input);
    let ghost psv = ps.deep_view();
    let mut toks: Vec<Token> = Vec::new();
    let mut j: usize = 0;
    proof {
        assert(psv.take(0) =~= Seq::<Seq<char>>::empty());
        assert(toks.deep_view() =~= Seq::<TokenView>::empty());
    }
    while j < ps.len()
        invariant
            j <= ps@.len(),
            psv == ps.deep_view(),
            psv == split_paragraphs_spec(input@),
            psv.len() == ps@.len(),
            lex_all(psv.take(j as int)) == Ok::<Seq<TokenView>, CompileError>(toks.deep_view()),
        decreases ps@.len() - j,
    {
        let ghost prev = toks.deep_view();
        proof {
            assert(psv[j as int] =~= (ps@[j as int])@);
            assert(psv.take(j as int + 1).drop_last() =~= psv.take(j as int));
            assert(psv.take(j as int + 1).last() == psv[j as int]);
        }
        match scan_paragraph(&ps[j], j) {
            Ok(t) => {
                toks.push(t);
                proof {
                    assert(toks.deep_view() =~= prev.push(t@));
                    assert(lex_all(psv.take(j as int + 1)) == Ok::<Seq<TokenView>, CompileError>(
                        toks.deep_view(),
                    ));
                }
            },
            Err(e) => {
                proof {
                    assert(lex_all(psv.take(j as int + 1)) == Err::<Seq<TokenView>, CompileError>(
                        e,
                    ));
                    lemma_lex_all_err_extends(psv, j as int + 1);
                }
                return Err(e);
            },
        }
        j = j + 1;
    }
    proof {
        assert(psv.take(j as int) =~= psv);
    }
    Ok(toks)
}

/// Reassembles independently scanned paragraph results in paragraph order:
/// all the tokens when every paragraph succeeded, otherwise the error of the
/// first failing paragraph.
pub fn collect_tokens(results: Vec<Result<Token, CompileError>>) -> (r: Result<
    Vec<Token>,
    CompileError,
>)
    ensures
        r is Ok <==> (forall|k: int| 0 <= k < results@.len() ==> #[trigger] results@[k] is Ok),
        r is Ok ==> r->Ok_0.deep_view().len() == results@.len(),
        r is Ok ==> forall|k: int|
            0 <= k < results@.len() ==> #[trigger] r->Ok_0.deep_view()[k] == results@[k]->Ok_0@,
        r is Err ==> exists|j: int|
            0 <= j < results@.len() && r->Err_0 == #[trigger] results@[j]->Err_0 && results@[j]
                is Err && (forall|k: int| 0 <= k < j ==> #[trigger] results@[k] is Ok),
{
    let mut toks: Vec<Token> = Vec::new();
    let mut rest = results;
    let ghost all = rest@;
    let mut j: usize = 0;
    let n: usize = rest.len();
    proof {
        assert(all.len() == n);
    }
    while rest.len() > 0
        invariant
            all == results@,
            all.len() <= usize::MAX,
            j + rest@.len() == all.len(),
            rest@ =~= all.skip(j as int),
            toks@.len() == j,
            toks.deep_view().len() == j,
            forall|k: int| 0 <= k < j ==> #[trigger] all[k] is Ok,
            forall|k: int| 0 <= k < j ==> #[trigger] toks.deep_view()[k] == all[k]->Ok_0@,
        decreases rest@.len(),
    {
        let ghost prev = toks.deep_view();
        let item = rest.remove(0);
        proof {
            assert(all.skip(j as int)[0] == all[j as int]);
            assert(item == all[j as int]);
            assert(rest@ =~= all.skip(j as int + 1));
        }
        match item {
            Ok(t) => {
                toks.push(t);
                proof {
                    assert(toks.deep_view() =~= prev.push(t@));
                }
            },
            Err(e) => {
                proof {
                    assert(exists|jj: int|
                        0 <= jj < all.len() && e == #[trigger] all[jj]->Err_0 && all[jj] is Err && (
                        forall|k: int| 0 <= k < jj ==> #[trigger] all[k] is Ok)) by {
                        assert(0 <= (j as int) && (j as int) < all.len() && e == all[j as int]->Err_0
                            && all[j as int] is Err && (forall|k: int|
                            0 <= k < j as int ==> #[trigger] all[k] is Ok));
                    }
                }
                return Err(e);
            },
        }
        j = j + 1;
    }
    Ok(toks)
}

/// The content blocks of a token sequence, in order: titles, paragraphs and
/// headings map one to one; bookmark tokens have no document representation
/// and are dropped.
pub open spec fn classify_spec(ts: Seq<TokenView>) -> Seq<ContentView>
    decreases ts.len(),
{
    if ts.len() == 0 {
        Seq::empty()
    } else {
        match ts[0] {
            TokenView::Paragraph(runs) => seq![ContentView::Paragraph(runs)] + classify_spec(
                ts.skip(1),
            ),
            TokenView::Title(runs) => seq![ContentView::Title(runs)] + classify_spec(ts.skip(1)),
            TokenView::Heading(level, runs) => seq![ContentView::Heading { level, text: runs }]
                + classify_spec(ts.skip(1)),
            TokenView::Bookmark(_) => classify_spec(ts.skip(1)),
        }
    }
}

/// Maps every token to its content block, in order, dropping bookmarks.
pub fn tok2cont(input: Vec<Token>) -> (d: Document)
    ensures
        d.deep_view() == classify_spec(input.deep_view()),
{
    let mut out: Document = Vec::new();
    let mut rest = input;
    let ghost all = rest.deep_view();
    proof {
        assert(out.deep_view() =~= Seq::<ContentView>::empty());
        assert(out.deep_view() + classify_spec(all) =~= classify_spec(all));
    }
    while rest.len() > 0
        invariant
            out.deep_view() + classify_spec(rest.deep_view()) == classify_spec(all),
        decreases rest@.len(),
    {
        let ghost prev_rest = rest.deep_view();
        let ghost prev_out = out.deep_view();
        let tok = rest.remove(0);
        proof {
            assert(tok@ == prev_rest[0]);
            assert(rest.deep_view() =~= prev_rest.skip(1));
        }
        match tok {
            Token::Paragraph(runs) => {
                out.push(Content::Paragraph(runs));
            },
            Token::Title(runs) => {
                out.push(Content::Title(runs));
            },
            Token::Heading(level, runs) => {
                out.push(Content::Heading { level, text: runs });
            },
            Token::Bookmark(_) => {
            },
        }
        proof {
            assert(out.deep_view() + classify_spec(rest.deep_view()) =~= prev_out + classify_spec(
                prev_rest,
            ));
        }
    }
    proof {
        assert(rest.deep_view() =~= Seq::<TokenView>::empty());
        assert(out.deep_view() + classify_spec(rest.deep_view()) =~= out.deep_view());
    }
    out
}

/// The compiled document of a source: its paragraphs lexed in order and the
/// resulting tokens classified, or the first paragraph error.
pub open spec fn compile_spec(src: Seq<char>) -> Result<Seq<ContentView>, CompileError> {
    match lexerize_spec(src) {
        Ok(ts) => Ok(classify_spec(ts)),
        Err(e) => Err(e),
    }
}

/// The view of a compilation result: the document's view on success, the
/// error itself on failure.
pub open spec fn document_result_view(r: Result<Document, CompileError>) -> Result<
    Seq<ContentView>,
    CompileError,
> {
    match r {
        Ok(d) => Ok(d.deep_view()),
        Err(e) => Err(e),
    }
}

/// Compiles a whole source, given as its character sequence: split into
/// paragraphs, scan each, classify the tokens.  Any paragraph error aborts
/// the compilation; no partial document is produced.
pub fn compile(input: &Vec<char>) -> (r: Result<Document, CompileError>)
    ensures
        document_result_view(r) == compile_spec(input@),
        r is Ok ==> crate::content::wf_document(r->Ok_0.deep_view()),
{
    proof {
        crate::laws::lemma_compile_wf(input@);
    }
    match lexerize(input) {
        Ok(toks) => Ok(tok2cont(toks)),
        Err(e) => Err(e),
    }
}

/// Copies a string slice into the vector of its characters.
pub fn chars_of(s: &str) -> (v: Vec<char>)
    ensures
        v@ == s@,
{
    let n = s.unicode_len();
    let mut v: Vec<char> = Vec::new();
    let mut i: usize = 0;
    while i < n
        invariant
            i <= n,
            n == s@.len(),
            v@ == s@.subrange(0, i as int),
        decreases n - i,
    {
        v.push(s.get_char(i));
        i = i + 1;
        proof {
            assert(v@ =~= s@.subrange(0, i as int));
        }
    }
    proof {
        assert(v@ =~= s@);
    }
    v
}

/// Compiles a whole source given as a string slice.
pub fn compile_str(src: &str) -> (r: Result<Document, CompileError>)
    ensures
        document_result_view(r) == compile_spec(src@),
        r is Ok ==> crate::content::wf_document(r->Ok_0.deep_view()),
{
    let chars = chars_of(src);
    compile(&chars)
}

} // verus!
