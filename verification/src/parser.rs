//! The statement parser: groups a classified token stream into statement
//! blocks — plain expressions, unconditional bindings, and multi-case
//! guarded procedures — and gives every block's token lists the structural
//! bundling pass. Any lexical error anywhere in a section fails the whole
//! parse with the accumulated diagnostics.

#![allow(unused_imports)]
use vstd::prelude::*;

use crate::diagnostics::{Diag, Label, Severity, Span};
use crate::lexer::LexerToken;
use crate::utils::{bundle, duplicate_tokens};
use crate::{token_models, Case, CodeBlock, SpecToken, State, Token, Tokens};
use vstd::string::{StrSliceExecFns, StringExecFns};

verus! {

broadcast use vstd::std_specs::vec::group_vec_axioms, vstd::seq::group_seq_axioms;

/// Whether one token stream entry is lexically clean: not an error itself,
/// and, for a guard line, carrying no error in its tokenized payloads.
pub open spec fn spec_entry_clean(t: LexerToken) -> bool {
    match t {
        LexerToken::Error => false,
        LexerToken::GuardOption(x, y) => spec_stream_clean(x@) && spec_stream_clean(y@),
        LexerToken::GuardDefault(d) => spec_stream_clean(d@),
        _ => true,
    }
}

/// Whether a payload stream holds no lexical-error token.
pub open spec fn spec_stream_clean(
    s: Seq<(LexerToken, crate::diagnostics::Span)>,
) -> bool {
    forall|i: int| 0 <= i < s.len() ==> !((#[trigger] s[i]).0 is Error)
}

/// What one stream entry contributes to an expression's token list: a
/// ready token as it stands; a bare identifier as a primitive token when
/// the registry knows the name and as a procedure token otherwise, and the
/// same choice for inert literals; nothing for separators, structure
/// markers and error spans.
pub open spec fn spec_classify_entry(t: LexerToken) -> Seq<SpecToken> {
    match t {
        LexerToken::Token(tok) => seq![tok.deep_view()],
        LexerToken::Function(f) => if crate::stdlib::spec_signature(f@) is Some {
            seq![SpecToken::Function(f@)]
        } else {
            seq![SpecToken::Container(f@)]
        },
        LexerToken::FunctionLiteral(f) => if crate::stdlib::spec_signature(f@) is Some {
            seq![SpecToken::FunctionLiteral(f@)]
        } else {
            seq![SpecToken::ContainerLiteral(f@)]
        },
        _ => Seq::empty(),
    }
}

/// The token list a whole expression stream denotes, before bundling.
pub open spec fn spec_classified(s: Seq<(LexerToken, crate::diagnostics::Span)>) -> Seq<
    SpecToken,
>
    decreases s.len(),
{
    if s.len() == 0 {
        Seq::empty()
    } else {
        spec_classified(s.drop_last()) + spec_classify_entry(s.last().0)
    }
}

/// The token list a guard payload denotes: classified, then bundled once
/// on its own (the whole block is bundled again at the end, as every
/// block's token lists are).
pub open spec fn spec_payload(s: Seq<(LexerToken, crate::diagnostics::Span)>) -> Seq<
    SpecToken,
> {
    crate::utils::spec_bundle(spec_classified(s))
}

/// A statement block that holds nothing yet.
pub open spec fn spec_empty_block() -> crate::SpecCodeBlock {
    crate::SpecCodeBlock { container: None, cases: None, default_case: Seq::empty() }
}

/// Whether a block still holds nothing.
pub open spec fn spec_block_empty(b: crate::SpecCodeBlock) -> bool {
    b.container is None && b.cases is None && b.default_case.len() == 0
}

/// What one stream entry does to the sectioning state — the finished
/// blocks and the block under construction. A newline closes a non-empty
/// block; a guard opener or an assignment names the block; each guard line
/// adds one case; the default line sets the default case; everything else
/// contributes its classification to the running expression.
pub open spec fn spec_section_step(
    acc: (Seq<crate::SpecCodeBlock>, crate::SpecCodeBlock),
    t: LexerToken,
) -> (Seq<crate::SpecCodeBlock>, crate::SpecCodeBlock) {
    match t {
        LexerToken::Newline => if !spec_block_empty(acc.1) {
            (acc.0.push(acc.1), spec_empty_block())
        } else {
            acc
        },
        LexerToken::BooleanGuard(name) => (
            acc.0,
            crate::SpecCodeBlock {
                container: Some(name@),
                cases: acc.1.cases,
                default_case: acc.1.default_case,
            },
        ),
        LexerToken::Assignment(name) => (
            acc.0,
            crate::SpecCodeBlock {
                container: Some(name@),
                cases: acc.1.cases,
                default_case: acc.1.default_case,
            },
        ),
        LexerToken::GuardOption(x, y) => (
            acc.0,
            crate::SpecCodeBlock {
                container: acc.1.container,
                cases: Some(
                    (match acc.1.cases {
                        Some(cs) => cs,
                        None => Seq::empty(),
                    }).push((spec_payload(x@), spec_payload(y@))),
                ),
                default_case: acc.1.default_case,
            },
        ),
        LexerToken::GuardDefault(d) => (
            acc.0,
            crate::SpecCodeBlock {
                container: acc.1.container,
                cases: acc.1.cases,
                default_case: spec_payload(d@),
            },
        ),
        _ => (
            acc.0,
            crate::SpecCodeBlock {
                container: acc.1.container,
                cases: acc.1.cases,
                default_case: acc.1.default_case + spec_classify_entry(t),
            },
        ),
    }
}

/// The sectioning state after the first `upto` entries.
pub open spec fn spec_sections(
    s: Seq<(LexerToken, crate::diagnostics::Span)>,
    upto: int,
) -> (Seq<crate::SpecCodeBlock>, crate::SpecCodeBlock)
    decreases upto,
{
    if upto <= 0 {
        (Seq::empty(), spec_empty_block())
    } else {
        spec_section_step(spec_sections(s, upto - 1), s[upto - 1].0)
    }
}

/// The statement blocks a whole stream denotes, before the final bundling
/// pass: the closed sections, plus the trailing one if it holds anything.
pub open spec fn spec_blocks(s: Seq<(LexerToken, crate::diagnostics::Span)>) -> Seq<
    crate::SpecCodeBlock,
> {
    let acc = spec_sections(s, s.len() as int);
    if !spec_block_empty(acc.1) {
        acc.0.push(acc.1)
    } else {
        acc.0
    }
}

/// One case table after the final bundling pass.
pub open spec fn spec_bundle_cases(cs: Seq<crate::SpecCase>) -> Seq<crate::SpecCase>
    decreases cs.len(),
{
    if cs.len() == 0 {
        Seq::empty()
    } else {
        spec_bundle_cases(cs.drop_last()).push(
            (crate::utils::spec_bundle(cs.last().0), crate::utils::spec_bundle(cs.last().1)),
        )
    }
}

/// One block after the final bundling pass.
pub open spec fn spec_bundle_block(b: crate::SpecCodeBlock) -> crate::SpecCodeBlock {
    crate::SpecCodeBlock {
        container: b.container,
        cases: match b.cases {
            Some(cs) => Some(spec_bundle_cases(cs)),
            None => None,
        },
        default_case: crate::utils::spec_bundle(b.default_case),
    }
}

/// All blocks after the final bundling pass.
pub open spec fn spec_bundled_blocks(bs: Seq<crate::SpecCodeBlock>) -> Seq<
    crate::SpecCodeBlock,
>
    decreases bs.len(),
{
    if bs.len() == 0 {
        Seq::empty()
    } else {
        spec_bundled_blocks(bs.drop_last()).push(spec_bundle_block(bs.last()))
    }
}

/// The statement blocks a clean stream parses to.
pub open spec fn spec_parsed(s: Seq<(LexerToken, crate::diagnostics::Span)>) -> Seq<
    crate::SpecCodeBlock,
> {
    spec_bundled_blocks(spec_blocks(s))
}

/// Builds the lexical-error diagnostic for one unrecognized span.
fn unknown_token_diag(span: Span, reference: &str) -> (d: Diag)
    ensures
        d.message@ == "Unknown Token"@,
        d.labels@.len() == 1,
        d.labels@[0].span == span,
        d.labels@[0].message@ == "The parser can not identify this token."@,
        d.source@ == reference@,
{
    let mut labels: Vec<Label> = Vec::new();
    labels.push(
        Label {
            span,
            message: String::from_str("The parser can not identify this token."),
            severity: Severity::Error,
        },
    );
    Diag { message: String::from_str("Unknown Token"), labels, source: reference.to_owned() }
}

/// Merges every run of adjacent lexical-error tokens into one, keeping the
/// combined span, so an unrecognized stretch of text reports once.
fn merge_errors(code: &Vec<(LexerToken, Span)>) -> (r: Vec<(LexerToken, Span)>)
    ensures
        (exists|i: int| 0 <= i < code@.len() && (#[trigger] code@[i]).0 is Error) <==> (exists|
            i: int,
        |
            0 <= i < r@.len() && (#[trigger] r@[i]).0 is Error),
        (forall|i: int| 0 <= i < code@.len() ==> spec_entry_clean((#[trigger] code@[i]).0))
            <==> (forall|i: int| 0 <= i < r@.len() ==> spec_entry_clean((#[trigger] r@[i]).0)),
{
    let mut out: Vec<(LexerToken, Span)> = Vec::new();
    let mut i: usize = 0;
    while i < code.len()
        invariant
            i <= code.len(),
            (exists|j: int| 0 <= j < i && (#[trigger] code@[j]).0 is Error) <==> (exists|
                j: int,
            |
                0 <= j < out@.len() && (#[trigger] out@[j]).0 is Error),
            (forall|j: int| 0 <= j < i ==> spec_entry_clean((#[trigger] code@[j]).0)) <==> (
            forall|j: int| 0 <= j < out@.len() ==> spec_entry_clean((#[trigger] out@[j]).0)),
        decreases code.len() - i,
    {
        let is_err = matches!(&code[i].0, LexerToken::Error);
        if is_err {
            let start = code[i].1.start;
            let mut end = code[i].1.end;
            let ghost before = i as int;
            while i < code.len() && matches!(&code[i].0, LexerToken::Error)
                invariant
                    before < i as int + 1,
                    i <= code.len(),
                    before <= code@.len(),
                    0 <= before < code@.len() && code@[before].0 is Error,
                decreases code.len() - i,
            {
                end = code[i].1.end;
                i = i + 1;
            }
            out.push((LexerToken::Error, Span { start, end }));
            proof {
                assert(out@[out@.len() - 1].0 is Error);
            }
        } else {
            let piece = duplicate_lexer_token(&code[i]);
            let ghost keep = out@;
            out.push(piece);
            proof {
                assert(!(out@[out@.len() - 1].0 is Error));
                assert(forall|j: int| 0 <= j < keep.len() ==> out@[j] == keep[j]);
            }
            i = i + 1;
        }
    }
    out
}

/// A copy of one classified token; whether it and its payloads are clean
/// is preserved.
fn duplicate_lexer_token(t: &(LexerToken, Span)) -> (r: (LexerToken, Span))
    ensures
        r.0 is Error <==> t.0 is Error,
        spec_entry_clean(r.0) == spec_entry_clean(t.0),
    decreases t.0,
{
    let span = t.1;
    let tok = match &t.0 {
        LexerToken::BooleanGuard(s) => LexerToken::BooleanGuard(s.clone()),
        LexerToken::GuardDefault(v) => LexerToken::GuardDefault(duplicate_lexer_stream(v)),
        LexerToken::GuardOption(x, y) => LexerToken::GuardOption(
            duplicate_lexer_stream(x),
            duplicate_lexer_stream(y),
        ),
        LexerToken::Assignment(s) => LexerToken::Assignment(s.clone()),
        LexerToken::Token(t) => LexerToken::Token(t.duplicate()),
        LexerToken::Function(s) => LexerToken::Function(s.clone()),
        LexerToken::FunctionLiteral(s) => LexerToken::FunctionLiteral(s.clone()),
        LexerToken::Seperator => LexerToken::Seperator,
        LexerToken::Newline => LexerToken::Newline,
        LexerToken::Error => LexerToken::Error,
    };
    (tok, span)
}

/// A copy of a whole classified stream; cleanliness is preserved.
fn duplicate_lexer_stream(v: &Vec<(LexerToken, Span)>) -> (r: Vec<(LexerToken, Span)>)
    ensures
        spec_stream_clean(r@) == spec_stream_clean(v@),
    decreases *v,
{
    let mut out: Vec<(LexerToken, Span)> = Vec::new();
    let mut i: usize = 0;
    while i < v.len()
        invariant
            i <= v.len(),
            out@.len() == i,
            forall|j: int|
                0 <= j < i ==> ((#[trigger] out@[j]).0 is Error <==> v@[j].0 is Error),
        decreases v.len() - i,
    {
        out.push(duplicate_lexer_token(&v[i]));
        i = i + 1;
    }
    proof {
        if spec_stream_clean(v@) {
            assert forall|j: int| 0 <= j < out@.len() implies !((#[trigger] out@[j]).0
                is Error) by {
                assert(!(v@[j].0 is Error));
            }
        }
        if spec_stream_clean(out@) {
            assert forall|j: int| 0 <= j < v@.len() implies !((#[trigger] v@[j]).0
                is Error) by {
                assert(!(out@[j].0 is Error));
            }
        }
    }
    out
}

impl CodeBlock {
    /// Whether this block holds nothing yet; an empty section produces no
    /// block.
    fn is_empty(&self) -> (r: bool)
        ensures
            r == (self.container is None && self.cases is None && self.default_case@.len()
                == 0),
    {
        self.container.is_none() && self.cases.is_none() && self.default_case.len() == 0
    }
}

/// Parses one single-line token stream — a guard predicate, consequent or
/// default — into its token list. Such a stream holds no newline, so no
/// statement structure can occur inside it; a lexical error anywhere fails
/// it.
pub fn parse_expression(stream: &Vec<(LexerToken, Span)>, reference: &str) -> (r: Result<
    Tokens,
    Vec<Diag>,
>)
    ensures
        r is Ok <==> spec_stream_clean(stream@),
        r is Ok ==> token_models(r->Ok_0) == crate::utils::spec_bundle(
            spec_classified(stream@),
        ),
        r is Err ==> r->Err_0@.len() >= 1,
        r is Err ==> forall|i: int|
            0 <= i < r->Err_0@.len() ==> (#[trigger] r->Err_0@[i].deep_view()).message
                == "Unknown Token"@,
{
    let merged = merge_errors(stream);
    let mut errors: Vec<Diag> = Vec::new();
    let mut i: usize = 0;
    while i < merged.len()
        invariant
            i <= merged.len(),
            errors@.len() > 0 <==> (exists|j: int|
                0 <= j < i && (#[trigger] merged@[j]).0 is Error),
            forall|j: int|
                0 <= j < errors@.len() ==> (#[trigger] errors@[j].deep_view()).message
                    == "Unknown Token"@,
        decreases merged.len() - i,
    {
        if matches!(&merged[i].0, LexerToken::Error) {
            errors.push(unknown_token_diag(merged[i].1, reference));
        }
        i = i + 1;
    }
    if errors.len() > 0 {
        proof {
            assert(exists|j: int| 0 <= j < merged@.len() && (#[trigger] merged@[j]).0 is Error);
        }
        return Err(errors);
    }
    proof {
        assert(forall|j: int| 0 <= j < merged@.len() ==> !((#[trigger] merged@[j]).0 is Error));
        assert(spec_stream_clean(stream@));
    }
    let ghost sm = stream@;
    let mut toks: Tokens = Vec::new();
    let mut k: usize = 0;
    proof {
        assert(token_models(toks) =~= Seq::<SpecToken>::empty());
        assert(sm.subrange(0, 0) =~= Seq::<(LexerToken, Span)>::empty());
    }
    while k < stream.len()
        invariant
            k <= stream.len(),
            sm == stream@,
            token_models(toks) == spec_classified(sm.subrange(0, k as int)),
        decreases stream.len() - k,
    {
        let ghost before = token_models(toks);
        match &stream[k].0 {
            LexerToken::Token(t) => {
                toks.push(t.duplicate());
                proof {
                    assert(token_models(toks) =~= before.push(t.deep_view()));
                }
            },
            LexerToken::Function(func) => {
                if crate::stdlib::function_signature(func.as_str()).is_some() {
                    toks.push(Token::Function(func.clone()));
                } else {
                    toks.push(Token::Container(func.clone()));
                }
                proof {
                    assert(token_models(toks) =~= before + spec_classify_entry(
                        sm[k as int].0,
                    ));
                }
            },
            LexerToken::FunctionLiteral(func) => {
                if crate::stdlib::function_signature(func.as_str()).is_some() {
                    toks.push(Token::FunctionLiteral(func.clone()));
                } else {
                    toks.push(Token::ContainerLiteral(func.clone()));
                }
                proof {
                    assert(token_models(toks) =~= before + spec_classify_entry(
                        sm[k as int].0,
                    ));
                }
            },
            _ => {
                proof {
                    assert(token_models(toks) =~= before + spec_classify_entry(
                        sm[k as int].0,
                    ));
                }
            },
        }
        proof {
            let pre = sm.subrange(0, k as int);
            let cur = sm.subrange(0, k + 1 as int);
            assert(cur.drop_last() =~= pre);
            assert(cur.last() == sm[k as int]);
        }
        k = k + 1;
    }
    proof {
        assert(sm.subrange(0, sm.len() as int) =~= sm);
    }
    Ok(bundle(&toks))
}

impl State {
    /// Groups a classified stream into statement blocks, per
    /// `spec_parsed`: sections are newline-delimited; a guard opener names
    /// the block, each guard line adds one case, the default line sets the
    /// default case, and plain tokens accumulate into an expression. Bare
    /// identifiers become primitive tokens when the registry knows them,
    /// procedure tokens otherwise; resolution happens only at evaluation
    /// time, so forward references are legal. After classification every
    /// token list of every block receives the bundling pass. A lexical
    /// error anywhere fails the parse with every accumulated diagnostic.
    pub fn parser(&self, code: &Vec<(LexerToken, Span)>, reference: &str) -> (r: Result<
        Vec<CodeBlock>,
        Vec<Diag>,
    >)
        ensures
            r is Ok <==> (forall|i: int|
                0 <= i < code@.len() ==> spec_entry_clean((#[trigger] code@[i]).0)),
            r is Ok ==> r->Ok_0.deep_view() == spec_parsed(code@),
            r is Err ==> r->Err_0@.len() >= 1,
            r is Err ==> forall|i: int|
                0 <= i < r->Err_0@.len() ==> (#[trigger] r->Err_0@[i].deep_view()).message
                    == "Unknown Token"@,
    {
        let merged = merge_errors(code);
        let mut errors: Vec<Diag> = Vec::new();
        let mut i: usize = 0;
        while i < merged.len()
            invariant
                i <= merged.len(),
                errors@.len() > 0 <==> (exists|j: int|
                    0 <= j < i && !spec_entry_clean((#[trigger] merged@[j]).0)),
                forall|j: int|
                    0 <= j < errors@.len() ==> (#[trigger] errors@[j].deep_view()).message
                        == "Unknown Token"@,
            decreases merged.len() - i,
        {
            match &merged[i].0 {
                LexerToken::GuardOption(x, y) => {
                    proof {
                        assert(spec_entry_clean(merged@[i as int].0) == (spec_stream_clean(x@)
                            && spec_stream_clean(y@)));
                    }
                    let px = parse_expression(x, reference);
                    let py = parse_expression(y, reference);
                    match (px, py) {
                        (Ok(_), Ok(_)) => {},
                        (Err(mut ex), Err(mut ey)) => {
                            errors.append(&mut ex);
                            errors.append(&mut ey);
                            proof {
                                assert(errors@.len() > 0);
                            }
                        },
                        (Err(mut ex), Ok(_)) => {
                            errors.append(&mut ex);
                            proof {
                                assert(errors@.len() > 0);
                            }
                        },
                        (Ok(_), Err(mut ey)) => {
                            errors.append(&mut ey);
                            proof {
                                assert(errors@.len() > 0);
                            }
                        },
                    }
                },
                LexerToken::GuardDefault(d) => {
                    proof {
                        assert(spec_entry_clean(merged@[i as int].0) == spec_stream_clean(d@));
                    }
                    match parse_expression(d, reference) {
                        Ok(_) => {},
                        Err(mut es) => {
                            errors.append(&mut es);
                            proof {
                                assert(errors@.len() > 0);
                            }
                        },
                    }
                },
                LexerToken::Error => {
                    errors.push(unknown_token_diag(merged[i].1, reference));
                },
                _ => {},
            }
            i = i + 1;
        }
        if errors.len() > 0 {
            proof {
                assert(exists|j: int|
                    0 <= j < merged@.len() && !spec_entry_clean((#[trigger] merged@[j]).0));
                assert(!(forall|j: int|
                    0 <= j < merged@.len() ==> spec_entry_clean((#[trigger] merged@[j]).0)));
            }
            return Err(errors);
        }
        proof {
            assert(forall|j: int|
                0 <= j < merged@.len() ==> spec_entry_clean((#[trigger] merged@[j]).0));
        }
        let ghost sm = code@;
        let mut parsed: Vec<CodeBlock> = Vec::new();
        let mut current = CodeBlock { container: None, cases: None, default_case: Vec::new() };
        let mut k: usize = 0;
        proof {
            assert(parsed.deep_view() =~= Seq::<crate::SpecCodeBlock>::empty());
            assert(current.deep_view().default_case =~= Seq::<SpecToken>::empty());
            assert(current.deep_view() == spec_empty_block());
        }
        while k < code.len()
            invariant
                k <= code.len(),
                sm == code@,
                forall|j: int| 0 <= j < sm.len() ==> spec_entry_clean((#[trigger] sm[j]).0),
                parsed.deep_view() == spec_sections(sm, k as int).0,
                current.deep_view() == spec_sections(sm, k as int).1,
            decreases code.len() - k,
        {
            let ghost acc = spec_sections(sm, k as int);
            match &code[k].0 {
                LexerToken::Newline => {
                    if !current.is_empty() {
                        let mut done = CodeBlock {
                            container: None,
                            cases: None,
                            default_case: Vec::new(),
                        };
                        core::mem::swap(&mut done, &mut current);
                        let ghost oldvec = parsed;
                        let ghost before = parsed.deep_view();
                        parsed.push(done);
                        proof {
                            assert(!spec_block_empty(acc.1));
                            assert forall|j: int|
                                0 <= j < parsed.deep_view().len() implies parsed.deep_view()[j]
                                == before.push(acc.1)[j] by {
                                crate::lemma_vec_deep_view_index(parsed, j);
                                if j < before.len() {
                                    crate::lemma_vec_deep_view_index(oldvec, j);
                                }
                            }
                            assert(parsed.deep_view() =~= before.push(acc.1));
                            assert(current.deep_view().default_case =~= Seq::<
                                SpecToken,
                            >::empty());
                            assert(current.deep_view() == spec_empty_block());
                        }
                    } else {
                        proof {
                            assert(spec_block_empty(acc.1));
                        }
                    }
                },
                LexerToken::BooleanGuard(name) => {
                    current.container = Some(name.clone());
                },
                LexerToken::Assignment(name) => {
                    current.container = Some(name.clone());
                },
                LexerToken::GuardOption(x, y) => {
                    proof {
                        assert(spec_entry_clean(sm[k as int].0));
                    }
                    let token_x = match parse_expression(x, reference) {
                        Ok(t) => t,
                        Err(_) => {
                            proof {
                                assert(false);
                            }
                            return unreached();
                        },
                    };
                    let token_y = match parse_expression(y, reference) {
                        Ok(t) => t,
                        Err(_) => {
                            proof {
                                assert(false);
                            }
                            return unreached();
                        },
                    };
                    let mut cases: Vec<Case> = match current.cases.take() {
                        Some(cs) => cs,
                        None => Vec::new(),
                    };
                    let ghost partial = cases.deep_view();
                    proof {
                        match acc.1.cases {
                            Some(cs) => {
                                assert(partial == cs);
                            },
                            None => {
                                assert(partial =~= Seq::<crate::SpecCase>::empty());
                            },
                        }
                    }
                    cases.push((token_x, token_y));
                    proof {
                        crate::lemma_vec_deep_view_index(cases, cases@.len() - 1);
                        crate::lemma_token_models_is_deep_view(cases@[cases@.len() - 1].0);
                        crate::lemma_token_models_is_deep_view(cases@[cases@.len() - 1].1);
                        assert(cases.deep_view().drop_last() =~= partial);
                        assert(cases.deep_view().last() == (spec_payload(x@), spec_payload(
                            y@,
                        )));
                        assert(cases.deep_view() =~= partial.push(
                            (spec_payload(x@), spec_payload(y@)),
                        ));
                    }
                    current.cases = Some(cases);
                },
                LexerToken::GuardDefault(d) => {
                    proof {
                        assert(spec_entry_clean(sm[k as int].0));
                    }
                    let default_case = match parse_expression(d, reference) {
                        Ok(t) => t,
                        Err(_) => {
                            proof {
                                assert(false);
                            }
                            return unreached();
                        },
                    };
                    current.default_case = default_case;
                },
                LexerToken::Token(t) => {
                    let ghost before = token_models(current.default_case);
                    current.default_case.push(t.duplicate());
                    proof {
                        assert(token_models(current.default_case) =~= before + seq![
                            t.deep_view(),
                        ]);
                    }
                },
                LexerToken::Function(func) => {
                    let ghost before = token_models(current.default_case);
                    if crate::stdlib::function_signature(func.as_str()).is_some() {
                        current.default_case.push(Token::Function(func.clone()));
                    } else {
                        current.default_case.push(Token::Container(func.clone()));
                    }
                    proof {
                        assert(token_models(current.default_case) =~= before
                            + spec_classify_entry(sm[k as int].0));
                    }
                },
                LexerToken::FunctionLiteral(func) => {
                    let ghost before = token_models(current.default_case);
                    if crate::stdlib::function_signature(func.as_str()).is_some() {
                        current.default_case.push(Token::FunctionLiteral(func.clone()));
                    } else {
                        current.default_case.push(Token::ContainerLiteral(func.clone()));
                    }
                    proof {
                        assert(token_models(current.default_case) =~= before
                            + spec_classify_entry(sm[k as int].0));
                    }
                },
                _ => {
                    proof {
                        assert(current.deep_view().default_case =~= acc.1.default_case
                            + spec_classify_entry(sm[k as int].0));
                    }
                },
            }
            proof {
                assert(spec_sections(sm, k + 1 as int) == spec_section_step(
                    acc,
                    sm[k as int].0,
                ));
            }
            k = k + 1;
        }
        let ghost accf = spec_sections(sm, sm.len() as int);
        if !current.is_empty() {
            let ghost oldvec = parsed;
            let ghost before = parsed.deep_view();
            proof {
                assert(!spec_block_empty(accf.1));
            }
            parsed.push(current);
            proof {
                assert forall|j: int|
                    0 <= j < parsed.deep_view().len() implies parsed.deep_view()[j]
                    == before.push(accf.1)[j] by {
                    crate::lemma_vec_deep_view_index(parsed, j);
                    if j < before.len() {
                        crate::lemma_vec_deep_view_index(oldvec, j);
                    }
                }
                assert(parsed.deep_view() =~= before.push(accf.1));
            }
        } else {
            proof {
                assert(spec_block_empty(accf.1));
            }
        }
        proof {
            assert(parsed.deep_view() =~= spec_blocks(sm));
        }
        let ghost blocks_dv = parsed.deep_view();
        let mut bundled: Vec<CodeBlock> = Vec::new();
        let mut b: usize = 0;
        while b < parsed.len()
            invariant
                b <= parsed.len(),
                blocks_dv == parsed.deep_view(),
                blocks_dv.len() == parsed@.len(),
                bundled.deep_view() == spec_bundled_blocks(blocks_dv.subrange(0, b as int)),
            decreases parsed.len() - b,
        {
            let block = &parsed[b];
            let ghost bm = blocks_dv[b as int];
            proof {
                crate::lemma_vec_deep_view_index(parsed, b as int);
            }
            let new_cases: Option<Vec<Case>> = match &block.cases {
                Some(cs) => {
                    let ghost cdv = cs.deep_view();
                    let mut out: Vec<Case> = Vec::new();
                    let mut c: usize = 0;
                    proof {
                        assert(out.deep_view() =~= Seq::<crate::SpecCase>::empty());
                        assert(cdv.subrange(0, 0) =~= Seq::<crate::SpecCase>::empty());
                    }
                    while c < cs.len()
                        invariant
                            c <= cs.len(),
                            cdv == cs.deep_view(),
                            cdv.len() == cs@.len(),
                            out.deep_view() == spec_bundle_cases(cdv.subrange(0, c as int)),
                        decreases cs.len() - c,
                    {
                        let ghost outdv = out.deep_view();
                        out.push((bundle(&cs[c].0), bundle(&cs[c].1)));
                        proof {
                            crate::lemma_vec_deep_view_index(*cs, c as int);
                            crate::lemma_token_models_is_deep_view(cs@[c as int].0);
                            crate::lemma_token_models_is_deep_view(cs@[c as int].1);
                            crate::lemma_vec_deep_view_index(out, out@.len() - 1);
                            crate::lemma_token_models_is_deep_view(out@[out@.len() - 1].0);
                            crate::lemma_token_models_is_deep_view(out@[out@.len() - 1].1);
                            assert(out.deep_view().drop_last() =~= outdv);
                            assert(out.deep_view().last() == (
                                crate::utils::spec_bundle(cdv[c as int].0),
                                crate::utils::spec_bundle(cdv[c as int].1),
                            ));
                            let pre = cdv.subrange(0, c as int);
                            let cur = cdv.subrange(0, c + 1 as int);
                            assert(cur.drop_last() =~= pre);
                            assert(cur.last() == cdv[c as int]);
                            assert(out.deep_view() =~= spec_bundle_cases(cur));
                        }
                        c = c + 1;
                    }
                    proof {
                        assert(cdv.subrange(0, cdv.len() as int) =~= cdv);
                    }
                    Some(out)
                },
                None => None,
            };
            let container = match &block.container {
                Some(n) => Some(n.clone()),
                None => None,
            };
            let piece = CodeBlock {
                container,
                cases: new_cases,
                default_case: bundle(&block.default_case),
            };
            let ghost oldvec = bundled;
            let ghost bundled_dv = bundled.deep_view();
            proof {
                crate::lemma_token_models_is_deep_view(block.default_case);
                crate::lemma_token_models_is_deep_view(piece.default_case);
                assert(piece.deep_view() == spec_bundle_block(bm));
            }
            bundled.push(piece);
            proof {
                assert forall|j: int|
                    0 <= j < bundled.deep_view().len() implies bundled.deep_view()[j]
                    == bundled_dv.push(spec_bundle_block(bm))[j] by {
                    crate::lemma_vec_deep_view_index(bundled, j);
                    if j < bundled_dv.len() {
                        crate::lemma_vec_deep_view_index(oldvec, j);
                    }
                }
                assert(bundled.deep_view() =~= bundled_dv.push(spec_bundle_block(bm)));
                let pre = blocks_dv.subrange(0, b as int);
                let cur = blocks_dv.subrange(0, b + 1 as int);
                assert(cur.drop_last() =~= pre);
                assert(cur.last() == bm);
                assert(bundled.deep_view() =~= spec_bundled_blocks(cur));
            }
            b = b + 1;
        }
        proof {
            assert(blocks_dv.subrange(0, blocks_dv.len() as int) =~= blocks_dv);
        }
        Ok(bundled)
    }
}

} // verus!
