//! The reduction engine: a work-list loop over an execution sequence and an
//! operand sequence. Instruction tokens are dispatched — primitives through
//! the registry, procedures through guarded-case selection, lambdas through
//! direct substitution — and every other token survives as an operand.

#![allow(unused_imports)]
use vstd::prelude::*;

use crate::diagnostics::{simple_diag, Diag};
use crate::utils::{
    duplicate_tokens, get_par, spec_expected_tags, spec_extracted, spec_resolve,
    spec_resolve_token, spec_tags_ok,
};
use crate::{token_models, wf_cases, Case, CodeBlock, SpecCase, SpecCodeBlock, SpecToken, State, Token, Tokens};

verus! {

broadcast use vstd::std_specs::vec::group_vec_axioms, vstd::seq::group_seq_axioms;


/// The outcome a statement's reduction denotes: the surviving operand
/// sequence together with the output lines the reduction emitted, a
/// failure (some diagnostic), or an exhausted step budget.
pub enum Reduction {
    Done(Seq<SpecToken>, Seq<Seq<char>>),
    Failed,
    OutOfFuel,
}

/// The outcome one registry call denotes: the single result token together
/// with the output it emitted, a failure, or an exhausted budget.
pub enum PrimOutcome {
    PrimDone(SpecToken, Seq<Seq<char>>),
    PrimFailed,
    PrimOutOfFuel,
}

/// The outcome of walking a case table: the selected case's consequent,
/// already substituted, or the failure a predicate reduction raised.
pub enum Selection {
    Chosen(Seq<SpecToken>),
    SelFailed,
    SelOutOfFuel,
}

/// The invocable form an inert literal activates to.
pub open spec fn spec_activate(t: SpecToken) -> SpecToken {
    match t {
        SpecToken::ContainerLiteral(x) => SpecToken::Container(x),
        SpecToken::FunctionLiteral(x) => SpecToken::Function(x),
        SpecToken::Lambda(b) => SpecToken::ActiveLambda(b),
        _ => t,
    }
}

/// One less unit of budget; zero stays zero (the callers that use this
/// have already failed on an empty budget).
pub open spec fn spec_sub1(b: nat) -> nat {
    if b == 0 {
        0
    } else {
        (b - 1) as nat
    }
}

/// What one statement reduces to under the given environment and step
/// budget: the mathematical mirror of `eval`.
pub open spec fn spec_eval(
    env: Map<Seq<char>, Seq<SpecCase>>,
    data: Seq<SpecToken>,
    fuel: nat,
) -> Reduction
    decreases fuel, 2int, 0int,
{
    spec_step(env, data, Seq::empty(), Seq::empty(), fuel)
}

/// The work-list loop: reduce the front of the execution sequence against
/// the operand sequence, one budget unit per pass.
pub open spec fn spec_step(
    env: Map<Seq<char>, Seq<SpecCase>>,
    exec: Seq<SpecToken>,
    params: Seq<SpecToken>,
    emitted: Seq<Seq<char>>,
    steps: nat,
) -> Reduction
    decreases steps, 1int, 0int,
{
    if exec.len() == 0 {
        Reduction::Done(params, emitted)
    } else if steps == 0 {
        Reduction::OutOfFuel
    } else {
        let s2 = (steps - 1) as nat;
        let t = exec[0];
        let rest = exec.drop_first();
        match t {
            SpecToken::Function(name) => match spec_expected_tags(t, env) {
                Some(tags) => if params.len() < tags.len() || !spec_tags_ok(params, tags) {
                    Reduction::Failed
                } else {
                    let ops = spec_extracted(params, tags.len() as int);
                    let remaining = params.subrange(0, params.len() - tags.len());
                    match spec_call(env, name, ops, s2) {
                        PrimOutcome::PrimDone(tok, more) => spec_step(
                            env,
                            seq![tok] + rest,
                            remaining,
                            emitted + more,
                            s2,
                        ),
                        PrimOutcome::PrimFailed => Reduction::Failed,
                        PrimOutcome::PrimOutOfFuel => Reduction::OutOfFuel,
                    }
                },
                None => Reduction::Failed,
            },
            SpecToken::Container(name) => match spec_expected_tags(t, env) {
                Some(tags) => if params.len() < tags.len() || !spec_tags_ok(params, tags) {
                    Reduction::Failed
                } else {
                    let ops = spec_extracted(params, tags.len() as int);
                    let remaining = params.subrange(0, params.len() - tags.len());
                    match spec_select(env, env[name], ops, 0, s2) {
                        Selection::Chosen(consequent) => spec_step(
                            env,
                            consequent + rest,
                            remaining,
                            emitted,
                            s2,
                        ),
                        Selection::SelFailed => Reduction::Failed,
                        Selection::SelOutOfFuel => Reduction::OutOfFuel,
                    }
                },
                None => Reduction::Failed,
            },
            SpecToken::ActiveLambda(body) => match spec_expected_tags(t, env) {
                Some(tags) => if params.len() < tags.len() || !spec_tags_ok(params, tags) {
                    Reduction::Failed
                } else {
                    let ops = spec_extracted(params, tags.len() as int);
                    let remaining = params.subrange(0, params.len() - tags.len());
                    spec_step(
                        env,
                        spec_resolve(body, ops.reverse()) + rest,
                        remaining,
                        emitted,
                        s2,
                    )
                },
                None => Reduction::Failed,
            },
            SpecToken::Group(contents) => match spec_eval(env, contents, s2) {
                Reduction::Done(result, more) => spec_step(
                    env,
                    rest,
                    params.push(SpecToken::Group(result)),
                    emitted + more,
                    s2,
                ),
                Reduction::Failed => Reduction::Failed,
                Reduction::OutOfFuel => Reduction::OutOfFuel,
            },
            SpecToken::Void => spec_step(env, rest, params, emitted, s2),
            _ => spec_step(env, rest, params.push(t), emitted, s2),
        }
    }
}

/// The guarded-dispatch walk from case `j` on: substitute the operands
/// into each predicate, reduce it afresh (its output is discarded), and
/// select the first case whose predicate reduces to the match value.
pub open spec fn spec_select(
    env: Map<Seq<char>, Seq<SpecCase>>,
    cases: Seq<SpecCase>,
    ops: Seq<SpecToken>,
    j: int,
    b: nat,
) -> Selection
    decreases b, 4int, cases.len() - j,
{
    if j < 0 || j >= cases.len() {
        Selection::SelFailed
    } else {
        match spec_eval(env, spec_resolve(cases[j].0, ops.reverse()), b) {
            Reduction::Done(res, _discarded) => if res == seq![SpecToken::Value(1)] {
                Selection::Chosen(spec_resolve(cases[j].1, ops.reverse()))
            } else {
                spec_select(env, cases, ops, j + 1, b)
            },
            Reduction::Failed => Selection::SelFailed,
            Reduction::OutOfFuel => Selection::SelOutOfFuel,
        }
    }
}

/// The higher-order mapping loop: each member, together with the activated
/// procedure, is reduced on one less unit of budget, and everything the
/// reductions produce is gathered in order.
pub open spec fn spec_map_loop(
    env: Map<Seq<char>, Seq<SpecCase>>,
    elems: Seq<SpecToken>,
    f: SpecToken,
    gathered: Seq<SpecToken>,
    emitted: Seq<Seq<char>>,
    b: nat,
) -> PrimOutcome
    decreases b, 4int, elems.len(),
{
    if elems.len() == 0 {
        PrimOutcome::PrimDone(SpecToken::Iterator(gathered), emitted)
    } else {
        match spec_eval(env, seq![elems[0], f], spec_sub1(b)) {
            Reduction::Done(res, more) => spec_map_loop(
                env,
                elems.drop_first(),
                f,
                gathered + res,
                emitted + more,
                b,
            ),
            Reduction::Failed => PrimOutcome::PrimFailed,
            Reduction::OutOfFuel => PrimOutcome::PrimOutOfFuel,
        }
    }
}

/// The fold loop: the accumulator, one member and the activated procedure
/// are reduced together; the first token of each step's result becomes the
/// next accumulator, and a step that produces no token at all fails.
pub open spec fn spec_fold_loop(
    env: Map<Seq<char>, Seq<SpecCase>>,
    arr: Seq<SpecToken>,
    f: SpecToken,
    acc: SpecToken,
    emitted: Seq<Seq<char>>,
    b: nat,
) -> PrimOutcome
    decreases b, 4int, arr.len(),
{
    if arr.len() == 0 {
        PrimOutcome::PrimDone(acc, emitted)
    } else {
        match spec_eval(env, seq![acc, arr[0], f], spec_sub1(b)) {
            Reduction::Done(res, more) => if res.len() == 0 {
                PrimOutcome::PrimFailed
            } else {
                spec_fold_loop(env, arr.drop_first(), f, res[0], emitted + more, b)
            },
            Reduction::Failed => PrimOutcome::PrimFailed,
            Reduction::OutOfFuel => PrimOutcome::PrimOutOfFuel,
        }
    }
}

/// What the registry call named `name` denotes on already extracted,
/// already type-checked operands: the pure primitives per
/// `spec_prim_result`; `type` encodes the operand's tag; `OUTPUT` emits
/// the rendered operand and produces the no-value marker; the three
/// higher-order primitives re-enter the reduction on the remaining budget.
pub open spec fn spec_call(
    env: Map<Seq<char>, Seq<SpecCase>>,
    name: Seq<char>,
    par: Seq<SpecToken>,
    b: nat,
) -> PrimOutcome
    decreases b, 5int, 0int,
{
    match crate::stdlib::spec_prim_result(name, par) {
        Some(out) => match out {
            Some(v) => PrimOutcome::PrimDone(v, Seq::empty()),
            None => PrimOutcome::PrimFailed,
        },
        None => if name == "type"@ {
            PrimOutcome::PrimDone(
                SpecToken::Group(crate::utils::spec_text_tokens(crate::utils::spec_type_of(par[0]))),
                Seq::empty(),
            )
        } else if name == "OUTPUT"@ {
            PrimOutcome::PrimDone(SpecToken::Void, seq![crate::utils::spec_convert(par[0])])
        } else if name == "map"@ {
            if b == 0 {
                PrimOutcome::PrimOutOfFuel
            } else {
                match par[1] {
                    SpecToken::Iterator(xs) => spec_map_loop(
                        env,
                        xs,
                        spec_activate(par[0]),
                        Seq::empty(),
                        Seq::empty(),
                        b,
                    ),
                    _ => PrimOutcome::PrimFailed,
                }
            }
        } else if name == "foldr"@ {
            if b == 0 {
                PrimOutcome::PrimOutOfFuel
            } else {
                match par[2] {
                    SpecToken::Iterator(xs) => spec_fold_loop(
                        env,
                        xs,
                        spec_activate(par[1]),
                        par[0],
                        Seq::empty(),
                        b,
                    ),
                    _ => PrimOutcome::PrimFailed,
                }
            }
        } else if name == "foldl"@ {
            if b == 0 {
                PrimOutcome::PrimOutOfFuel
            } else {
                match par[2] {
                    SpecToken::Iterator(xs) => spec_fold_loop(
                        env,
                        xs.reverse(),
                        spec_activate(par[1]),
                        par[0],
                        Seq::empty(),
                        b,
                    ),
                    _ => PrimOutcome::PrimFailed,
                }
            }
        } else {
            PrimOutcome::PrimFailed
        },
    }
}

/// Whether a token may appear as a resolved operand: the transient
/// instruction forms — primitives, procedures, bound lambdas and the
/// no-value marker — are consumed during reduction and never survive it.
pub open spec fn spec_operand(t: SpecToken) -> bool {
    &&& !(t is Function)
    &&& !(t is Container)
    &&& !(t is ActiveLambda)
    &&& !(t is Void)
}

/// Whether a token is inert: reduction moves it to the operand sequence
/// unchanged. The five other forms — primitives, procedures, bound lambdas,
/// groups and the no-value marker — are instructions the loop consumes.
pub open spec fn spec_inert(t: SpecToken) -> bool {
    &&& !(t is Function)
    &&& !(t is Container)
    &&& !(t is ActiveLambda)
    &&& !(t is Group)
    &&& !(t is Void)
}

/// Whether a whole statement is already fully reduced.
pub open spec fn spec_all_inert(s: Seq<SpecToken>) -> bool {
    forall|i: int| 0 <= i < s.len() ==> spec_inert(#[trigger] s[i])
}

/// Whether a token takes no part in dispatch: it is inert, or the no-value
/// marker, which reduction simply discards.
pub open spec fn spec_passive(t: SpecToken) -> bool {
    spec_inert(t) || t is Void
}

/// Whether a statement consists of passive tokens only.
pub open spec fn spec_all_passive(s: Seq<SpecToken>) -> bool {
    forall|i: int| 0 <= i < s.len() ==> spec_passive(#[trigger] s[i])
}

/// The statement with its no-value markers discarded: what reducing a
/// passive statement leaves behind.
pub open spec fn spec_without_void(s: Seq<SpecToken>) -> Seq<SpecToken>
    decreases s.len(),
{
    if s.len() == 0 {
        Seq::empty()
    } else {
        spec_without_void(s.drop_last()) + (if s.last() is Void {
            Seq::empty()
        } else {
            seq![s.last()]
        })
    }
}

/// The outcome a whole program's statement blocks denote: one surviving
/// operand sequence per expression block, or the first failure.
pub enum RunOutcome {
    RunDone(Seq<Seq<SpecToken>>),
    RunFailed,
}

/// Runs statement blocks in source order: a named block defines its
/// procedure (with the synthetic default case appended) for the blocks
/// after it; an expression block reduces under the current environment and
/// contributes its surviving operands.
pub open spec fn spec_run_blocks(
    env: Map<Seq<char>, Seq<SpecCase>>,
    blocks: Seq<SpecCodeBlock>,
    fuel: nat,
) -> RunOutcome
    decreases blocks.len(),
{
    if blocks.len() == 0 {
        RunOutcome::RunDone(Seq::empty())
    } else {
        let b = blocks[0];
        match b.container {
            Some(name) => spec_run_blocks(
                crate::spec_define(env, b),
                blocks.drop_first(),
                fuel,
            ),
            None => match spec_eval(env, b.default_case, fuel) {
                Reduction::Done(res, emitted) => match spec_run_blocks(
                    env,
                    blocks.drop_first(),
                    fuel,
                ) {
                    RunOutcome::RunDone(rest) => RunOutcome::RunDone(seq![res] + rest),
                    RunOutcome::RunFailed => RunOutcome::RunFailed,
                },
                Reduction::Failed => RunOutcome::RunFailed,
                Reduction::OutOfFuel => RunOutcome::RunFailed,
            },
        }
    }
}

/// Discarding the no-value markers proceeds front first.
proof fn lemma_without_void_front(s: Seq<SpecToken>)
    requires
        s.len() > 0,
    ensures
        spec_without_void(s) == (if s[0] is Void {
            Seq::<SpecToken>::empty()
        } else {
            seq![s[0]]
        }) + spec_without_void(s.drop_first()),
    decreases s.len(),
{
    if s.len() == 1 {
        assert(s.drop_last() =~= Seq::<SpecToken>::empty());
        assert(s.drop_first() =~= Seq::<SpecToken>::empty());
        assert(spec_without_void(s) =~= (if s[0] is Void {
            Seq::<SpecToken>::empty()
        } else {
            seq![s[0]]
        }) + spec_without_void(s.drop_first()));
    } else {
        lemma_without_void_front(s.drop_last());
        assert(s.drop_last()[0] == s[0]);
        assert(s.drop_last().drop_first() =~= s.drop_first().drop_last());
        assert(s.drop_first().last() == s.last());
        assert(spec_without_void(s) =~= (if s[0] is Void {
            Seq::<SpecToken>::empty()
        } else {
            seq![s[0]]
        }) + spec_without_void(s.drop_first()));
    }
}

/// A statement without no-value markers keeps every token.
proof fn lemma_without_void_id(s: Seq<SpecToken>)
    requires
        forall|i: int| 0 <= i < s.len() ==> !((#[trigger] s[i]) is Void),
    ensures
        spec_without_void(s) == s,
    decreases s.len(),
{
    if s.len() > 0 {
        lemma_without_void_id(s.drop_last());
        assert(spec_without_void(s) =~= s);
    }
}

/// A passive statement with enough budget reduces to its tokens with the
/// no-value markers discarded, emitting nothing.
proof fn lemma_step_passive(
    env: Map<Seq<char>, Seq<SpecCase>>,
    exec: Seq<SpecToken>,
    params: Seq<SpecToken>,
    emitted: Seq<Seq<char>>,
    steps: nat,
)
    requires
        spec_all_passive(exec),
        steps >= exec.len(),
    ensures
        spec_step(env, exec, params, emitted, steps) == Reduction::Done(
            params + spec_without_void(exec),
            emitted,
        ),
    decreases exec.len(),
{
    if exec.len() == 0 {
        assert(params + spec_without_void(exec) =~= params);
    } else {
        let rest = exec.drop_first();
        assert(spec_all_passive(rest)) by {
            assert(forall|i: int|
                0 <= i < rest.len() ==> rest[i] == #[trigger] exec[i + 1]);
        }
        lemma_step_passive(env, rest, params, emitted, (steps - 1) as nat);
        lemma_step_passive(
            env,
            rest,
            params.push(exec[0]),
            emitted,
            (steps - 1) as nat,
        );
        lemma_without_void_front(exec);
        assert(spec_passive(exec[0]));
        if exec[0] is Void {
            assert(params + spec_without_void(exec) =~= params + spec_without_void(rest));
        } else {
            assert(params.push(exec[0]) + spec_without_void(rest) =~= params
                + spec_without_void(exec));
        }
    }
}

/// The whole-statement form of the passive lemma.
proof fn lemma_eval_passive(env: Map<Seq<char>, Seq<SpecCase>>, s: Seq<SpecToken>, fuel: nat)
    requires
        spec_all_passive(s),
        fuel >= s.len(),
    ensures
        spec_eval(env, s, fuel) == Reduction::Done(
            spec_without_void(s),
            Seq::<Seq<char>>::empty(),
        ),
{
    lemma_step_passive(env, s, Seq::empty(), Seq::empty(), fuel);
    assert(Seq::<SpecToken>::empty() + spec_without_void(s) =~= spec_without_void(s));
}

/// Whether a reduced predicate selected its case: the result must be
/// exactly one token, the match value.
pub fn is_value_one(v: &Vec<Token>) -> (r: bool)
    ensures
        r == (token_models(*v) == seq![SpecToken::Value(1)]),
{
    if v.len() == 1 {
        match &v[0] {
            Token::Value(n) => {
                let r = *n == 1i64;
                proof {
                    assert(token_models(*v)[0] == v[0].deep_view());
                    if r {
                        assert(token_models(*v) =~= seq![SpecToken::Value(1)]);
                    } else {
                        assert(token_models(*v)[0] != SpecToken::Value(1));
                    }
                }
                r
            },
            _ => {
                proof {
                    assert(token_models(*v)[0] == v[0].deep_view());
                    assert(token_models(*v)[0] != SpecToken::Value(1));
                }
                false
            },
        }
    } else {
        proof {
            assert(token_models(*v).len() != 1);
        }
        false
    }
}

/// The remaining statement as extraction sees it: the operand sequence
/// followed by the rest of the execution sequence.
fn build_reference(params: &Vec<Token>, exec: &Vec<Token>) -> (r: Vec<Token>)
    ensures
        token_models(r) == token_models(*params) + token_models(*exec),
{
    let mut r = duplicate_tokens(params);
    let mut more = duplicate_tokens(exec);
    let ghost pm = token_models(*params);
    let ghost em = token_models(*exec);
    proof {
        assert(r@.len() == pm.len());
        assert(more@.len() == em.len());
    }
    r.append(&mut more);
    proof {
        assert forall|j: int| 0 <= j < pm.len() + em.len() implies token_models(r)[j] == (pm
            + em)[j] by {
            assert(r@[j].deep_view() == (pm + em)[j]);
        }
        assert(token_models(r) =~= pm + em);
    }
    r
}

impl State {
    /// One statement's reduction, with an explicit step budget. Each pass of
    /// the work-list loop consumes one unit; nested reductions — group
    /// contents, guard predicates, higher-order primitives — run on what is
    /// left. A budget of zero fails a non-empty statement with a
    /// recursion-limit report, which is also how a divergent user procedure
    /// eventually surfaces.
    ///
    /// The result is exactly what `spec_eval` denotes: on `Done` the
    /// surviving operands and the emitted output, on `Failed` or an
    /// exhausted budget the diagnostic. Reducing an already fully-reduced
    /// statement returns it unchanged and produces no output.
    pub fn eval(&mut self, data: Tokens, fuel: u64) -> (r: Result<Tokens, Diag>)
        requires
            old(self).wf(),
        ensures
            final(self).wf(),
            final(self).env() == old(self).env(),
            old(self).output().is_prefix_of(final(self).output()),
            r is Ok ==> forall|i: int|
                0 <= i < token_models(r->Ok_0).len() ==> spec_operand(
                    #[trigger] token_models(r->Ok_0)[i],
                ),
            spec_all_inert(token_models(data)) && fuel >= token_models(data).len() ==> r is Ok
                && token_models(r->Ok_0) == token_models(data) && final(self).output() == old(
                self,
            ).output(),
            spec_all_passive(token_models(data)) && fuel >= token_models(data).len() ==> r
                is Ok && token_models(r->Ok_0) == spec_without_void(token_models(data))
                && final(self).output() == old(self).output(),
            token_models(data).len() > 0 && fuel == 0 ==> r is Err,
            match spec_eval(old(self).env(), token_models(data), fuel as nat) {
                Reduction::Done(result, emitted) => r is Ok && token_models(r->Ok_0) == result
                    && final(self).output() =~= old(self).output() + emitted,
                Reduction::Failed => r is Err,
                Reduction::OutOfFuel => r is Err,
            },
        decreases fuel, 4int,
    {
        proof {
            let dm = token_models(data);
            let env0 = old(self).env();
            if spec_all_passive(dm) && fuel >= dm.len() {
                lemma_eval_passive(env0, dm, fuel as nat);
            }
            if spec_all_inert(dm) && fuel >= dm.len() {
                assert forall|i: int|
                    0 <= i < dm.len() implies spec_passive(#[trigger] dm[i]) by {}
                lemma_eval_passive(env0, dm, fuel as nat);
                lemma_without_void_id(dm);
            }
            if dm.len() > 0 && fuel == 0 {
                assert(spec_eval(env0, dm, 0) == Reduction::OutOfFuel);
            }
        }
        let r = self.eval_core(data, fuel);
        proof {
            let dm = token_models(data);
            if spec_all_passive(dm) && fuel >= dm.len() {
                assert(old(self).output() + Seq::<Seq<char>>::empty() =~= old(self).output());
            }
        }
        r
    }

    /// The work-list loop behind `eval`.
    #[verifier::rlimit(100)]
    fn eval_core(&mut self, data: Tokens, fuel: u64) -> (r: Result<Tokens, Diag>)
        requires
            old(self).wf(),
        ensures
            final(self).wf(),
            final(self).env() == old(self).env(),
            old(self).output().is_prefix_of(final(self).output()),
            r is Ok ==> forall|i: int|
                0 <= i < token_models(r->Ok_0).len() ==> spec_operand(
                    #[trigger] token_models(r->Ok_0)[i],
                ),
            match spec_eval(old(self).env(), token_models(data), fuel as nat) {
                Reduction::Done(result, emitted) => r is Ok && token_models(r->Ok_0) == result
                    && final(self).output() =~= old(self).output() + emitted,
                Reduction::Failed => r is Err,
                Reduction::OutOfFuel => r is Err,
            },
        decreases fuel, 3int,
    {
        let ghost dm = token_models(data);
        let mut exec: Vec<Token> = data;
        let mut params: Vec<Token> = Vec::new();
        let mut steps: u64 = fuel;
        let ghost mut sent: Seq<Seq<char>> = Seq::empty();
        let ghost env0 = old(self).env();
        proof {
            assert(token_models(params) =~= Seq::<SpecToken>::empty());
            assert(self.output() =~= old(self).output() + sent);
            assert(token_models(params) == Seq::<SpecToken>::empty());
            assert(spec_eval(env0, dm, fuel as nat) == spec_step(
                env0,
                token_models(exec),
                token_models(params),
                sent,
                fuel as nat,
            ));
        }
        while exec.len() > 0
            invariant
                self.wf(),
                self.env() == old(self).env(),
                old(self).output().is_prefix_of(self.output()),
                dm == token_models(data),
                steps <= fuel,
                forall|i: int|
                    0 <= i < token_models(params).len() ==> spec_operand(
                        #[trigger] token_models(params)[i],
                    ),
                env0 == old(self).env(),
                self.output() == old(self).output() + sent,
                spec_eval(env0, dm, fuel as nat) == spec_step(
                    env0,
                    token_models(exec),
                    token_models(params),
                    sent,
                    steps as nat,
                ),
            decreases steps,
        {
            if steps == 0 {
                proof {
                    assert(token_models(exec).len() > 0);
                    assert(spec_step(
                        env0,
                        token_models(exec),
                        token_models(params),
                        sent,
                        steps as nat,
                    ) == Reduction::OutOfFuel);
                }
                return Err(
                    simple_diag(
                        "Recursion Limit",
                        "The evaluation budget of this statement is exhausted.",
                    ),
                );
            }
            let ghost st0 = steps as nat;
            let ghost pm0 = token_models(params);
            steps = steps - 1;
            let ghost em = token_models(exec);
            let tok = exec.remove(0);
            proof {
                assert(tok.deep_view() == em[0]);
                assert(token_models(exec) =~= em.drop_first());
            }
            match tok {
                Token::Function(ident) => {
                    let f = Token::Function(ident.clone());
                    let reference = build_reference(&params, &exec);
                    let ghost m0 = token_models(params);
                    let extracted = match get_par(&mut params, &f, &reference, self) {
                        Ok(x) => x,
                        Err(e) => {
                            proof {
                                assert(f.deep_view() == em[0]);
                                match spec_expected_tags(em[0], env0) {
                                    Some(tags) => {
                                        assert(!(m0.len() >= tags.len() && spec_tags_ok(
                                            m0,
                                            tags,
                                        )));
                                        assert(spec_step(env0, em, m0, sent, st0)
                                            == Reduction::Failed);
                                    },
                                    None => {
                                        assert(spec_step(env0, em, m0, sent, st0)
                                            == Reduction::Failed);
                                    },
                                }
                            }
                            return Err(e);
                        },
                    };
                    proof {
                        assert(f.deep_view() == em[0]);
                        assert(spec_expected_tags(f.deep_view(), self.env()) is Some);
                        assert(spec_expected_tags(f.deep_view(), self.env())
                            == crate::stdlib::spec_signature(ident@));
                        let tags = spec_expected_tags(f.deep_view(), self.env())->Some_0;
                        let n = tags.len() as int;
                        assert(token_models(extracted) == spec_extracted(m0, n));
                        assert(token_models(extracted).len() == extracted@.len());
                        assert(extracted@.len() == n);
                        assert forall|i: int|
                            0 <= i < n implies crate::stdlib::spec_matches_tag(
                            tags[i],
                            token_models(extracted)[i],
                        ) by {
                            assert(spec_extracted(m0, n)[i] == m0[m0.len() - 1 - i]);
                        }
                    }
                    proof {
                        assert forall|i: int|
                            0 <= i < token_models(params).len() implies spec_operand(
                            #[trigger] token_models(params)[i],
                        ) by {
                            assert(token_models(params)[i] == m0[i]);
                        }
                    }
                    let ghost opsm = token_models(extracted);
                    proof {
                        assert(self.env() == env0);
                    }
                    let result = match crate::stdlib::call_function(
                        self,
                        ident.as_str(),
                        extracted,
                        steps,
                    ) {
                        Ok(t) => t,
                        Err(e) => {
                            proof {
                                assert(!(spec_call(env0, ident@, opsm, steps as nat)
                                    is PrimDone));
                                assert(spec_step(env0, em, m0, sent, st0) is Failed
                                    || spec_step(env0, em, m0, sent, st0) is OutOfFuel);
                            }
                            return Err(e);
                        },
                    };
                    let ghost sent0 = sent;
                    proof {
                        let outcome = spec_call(env0, ident@, opsm, steps as nat);
                        assert(outcome matches PrimOutcome::PrimDone(tokv, more) && result.deep_view()
                            == tokv);
                        let more = outcome->PrimDone_1;
                        assert(self.output() =~= old(self).output() + (sent + more));
                        sent = sent + more;
                        assert(self.output() == old(self).output() + sent);
                    }
                    let ghost resm = result.deep_view();
                    let mut newexec: Vec<Token> = Vec::new();
                    newexec.push(result);
                    proof {
                        assert(token_models(newexec) =~= seq![resm]);
                    }
                    newexec.append(&mut exec);
                    exec = newexec;
                    proof {
                        let outcome = spec_call(env0, ident@, opsm, steps as nat);
                        assert(token_models(exec) =~= seq![resm] + em.drop_first());
                        assert(token_models(exec) == seq![outcome->PrimDone_0]
                            + em.drop_first());
                        assert(spec_step(env0, em, m0, sent0, st0) == spec_step(
                            env0,
                            token_models(exec),
                            token_models(params),
                            sent,
                            steps as nat,
                        ));
                    }
                },
                Token::Container(ident) => {
                    let c = Token::Container(ident.clone());
                    let reference = build_reference(&params, &exec);
                    let ghost m0 = token_models(params);
                    let extracted = match get_par(&mut params, &c, &reference, self) {
                        Ok(x) => x,
                        Err(e) => {
                            proof {
                                assert(c.deep_view() == em[0]);
                                match spec_expected_tags(em[0], env0) {
                                    Some(tags) => {
                                        assert(!(m0.len() >= tags.len() && spec_tags_ok(
                                            m0,
                                            tags,
                                        )));
                                        assert(spec_step(env0, em, m0, sent, st0)
                                            == Reduction::Failed);
                                    },
                                    None => {
                                        assert(spec_step(env0, em, m0, sent, st0)
                                            == Reduction::Failed);
                                    },
                                }
                            }
                            return Err(e);
                        },
                    };
                    proof {
                        assert forall|i: int|
                            0 <= i < token_models(params).len() implies spec_operand(
                            #[trigger] token_models(params)[i],
                        ) by {
                            assert(token_models(params)[i] == m0[i]);
                        }
                    }
                    let cases: &Vec<Case> = match self.get(ident.as_str()) {
                        Some(cs) => cs,
                        None => {
                            proof {
                                assert(false);
                            }
                            return unreached();
                        },
                    };
                    let count = cases.len();
                    let ghost cm = cases.deep_view();
                    let ghost opsm = token_models(extracted);
                    let ghost pmrem = token_models(params);
                    let mut chosen: Option<Tokens> = None;
                    let mut j: usize = 0;
                    proof {
                        assert(count >= 1);
                        assert(c.deep_view() == em[0]);
                        assert(cm == env0[ident@]);
                        assert(spec_step(env0, em, m0, sent, st0) == (match spec_select(
                            env0,
                            cm,
                            opsm,
                            0,
                            steps as nat,
                        ) {
                            Selection::Chosen(consequent) => spec_step(
                                env0,
                                consequent + em.drop_first(),
                                pmrem,
                                sent,
                                steps as nat,
                            ),
                            Selection::SelFailed => Reduction::Failed,
                            Selection::SelOutOfFuel => Reduction::OutOfFuel,
                        }));
                    }
                    while j < count && chosen.is_none()
                        invariant
                            self.wf(),
                            self.env() == old(self).env(),
                            self.env() == env0,
                            env0 == old(self).env(),
                            old(self).output().is_prefix_of(self.output()),
                            self.output() == old(self).output() + sent,
                            dm == token_models(data),
                            steps < fuel,
                            count == cases@.len(),
                            count >= 1,
                            cm == cases.deep_view(),
                            wf_cases(cm),
                            opsm == token_models(extracted),
                            pmrem == token_models(params),
                            spec_eval(env0, dm, fuel as nat) == spec_step(env0, em, m0, sent, st0),
                            spec_step(env0, em, m0, sent, st0) == (match spec_select(
                                env0,
                                cm,
                                opsm,
                                0,
                                steps as nat,
                            ) {
                                Selection::Chosen(consequent) => spec_step(
                                    env0,
                                    consequent + em.drop_first(),
                                    pmrem,
                                    sent,
                                    steps as nat,
                                ),
                                Selection::SelFailed => Reduction::Failed,
                                Selection::SelOutOfFuel => Reduction::OutOfFuel,
                            }),
                            token_models(exec) == em.drop_first(),
                            chosen is None ==> j <= count - 1,
                            chosen is None ==> spec_select(env0, cm, opsm, 0, steps as nat)
                                == spec_select(env0, cm, opsm, j as int, steps as nat),
                            chosen matches Some(cons) ==> spec_select(
                                env0,
                                cm,
                                opsm,
                                0,
                                steps as nat,
                            ) == Selection::Chosen(token_models(cons)),
                        decreases count - j,
                    {
                        let resolved_pred = self.resolve(&cases[j].0, &extracted);
                        proof {
                            crate::lemma_vec_deep_view_index(*cases, j as int);
                            crate::lemma_token_models_is_deep_view(cases[j as int].0);
                            crate::lemma_token_models_is_deep_view(cases[j as int].1);
                            assert(token_models(resolved_pred) == spec_resolve(
                                cm[j as int].0,
                                opsm.reverse(),
                            ));
                        }
                        let mut scratch = self.duplicate();
                        proof {
                            assert(scratch.env() == env0);
                            assert(scratch.wf());
                        }
                        let pred_res = match scratch.eval(resolved_pred, steps) {
                            Ok(x) => x,
                            Err(e) => {
                                proof {
                                    let po = spec_eval(
                                        env0,
                                        spec_resolve(cm[j as int].0, opsm.reverse()),
                                        steps as nat,
                                    );
                                    assert(!(po is Done));
                                    assert(spec_select(env0, cm, opsm, j as int, steps as nat)
                                        is SelFailed || spec_select(
                                        env0,
                                        cm,
                                        opsm,
                                        j as int,
                                        steps as nat,
                                    ) is SelOutOfFuel);
                                }
                                return Err(e);
                            },
                        };
                        proof {
                            let po = spec_eval(
                                env0,
                                spec_resolve(cm[j as int].0, opsm.reverse()),
                                steps as nat,
                            );
                            assert(po matches Reduction::Done(a, b2) && a == token_models(
                                pred_res,
                            ));
                        }
                        if is_value_one(&pred_res) {
                            chosen = Some(self.resolve(&cases[j].1, &extracted));
                            proof {
                                assert(spec_select(env0, cm, opsm, j as int, steps as nat)
                                    == Selection::Chosen(spec_resolve(
                                    cm[j as int].1,
                                    opsm.reverse(),
                                )));
                            }
                        } else {
                            // the walk cannot leave the final, synthetic
                            // default case unselected: its predicate is the
                            // constant match value
                            proof {
                                if j == count - 1 {
                                    crate::lemma_vec_deep_view_index(*cases, j as int);
                                    crate::lemma_token_models_is_deep_view(
                                        cases[j as int].0,
                                    );
                                    assert(cm.last().0 == seq![SpecToken::Value(1)]);
                                    let ops = token_models(extracted).reverse();
                                    let pd = seq![SpecToken::Value(1)];
                                    assert(pd.drop_last() =~= Seq::<SpecToken>::empty());
                                    assert(spec_resolve(
                                        Seq::<SpecToken>::empty(),
                                        ops,
                                    ) == Seq::<SpecToken>::empty());
                                    assert(spec_resolve_token(pd.last(), ops) =~= seq![
                                        SpecToken::Value(1),
                                    ]);
                                    assert(spec_resolve(pd, ops) =~= seq![
                                        SpecToken::Value(1),
                                    ]);
                                    assert(token_models(resolved_pred) == seq![
                                        SpecToken::Value(1),
                                    ]);
                                    assert(spec_all_inert(token_models(resolved_pred)));
                                    assert(false);
                                }
                                assert(spec_select(env0, cm, opsm, j as int, steps as nat)
                                    == spec_select(env0, cm, opsm, j + 1 as int, steps as nat));
                            }
                        }
                        j = j + 1;
                    }
                    let resolved_cons = match chosen {
                        Some(cons) => cons,
                        None => {
                            proof {
                                assert(false);
                            }
                            return unreached();
                        },
                    };
                    let mut rc = resolved_cons;
                    let ghost rcm = token_models(rc);
                    rc.append(&mut exec);
                    exec = rc;
                    proof {
                        assert(token_models(exec) =~= rcm + em.drop_first());
                        assert(spec_step(env0, em, m0, sent, st0) == spec_step(
                            env0,
                            token_models(exec),
                            token_models(params),
                            sent,
                            steps as nat,
                        ));
                    }
                },
                Token::ActiveLambda(body) => {
                    let al = Token::ActiveLambda(duplicate_tokens(&body));
                    let reference = build_reference(&params, &exec);
                    let ghost m0 = token_models(params);
                    let extracted = match get_par(&mut params, &al, &reference, self) {
                        Ok(x) => x,
                        Err(e) => {
                            proof {
                                assert(al.deep_view() == em[0]);
                                match spec_expected_tags(em[0], env0) {
                                    Some(tags) => {
                                        assert(!(m0.len() >= tags.len() && spec_tags_ok(
                                            m0,
                                            tags,
                                        )));
                                        assert(spec_step(env0, em, m0, sent, st0)
                                            == Reduction::Failed);
                                    },
                                    None => {
                                        assert(spec_step(env0, em, m0, sent, st0)
                                            == Reduction::Failed);
                                    },
                                }
                            }
                            return Err(e);
                        },
                    };
                    proof {
                        assert forall|i: int|
                            0 <= i < token_models(params).len() implies spec_operand(
                            #[trigger] token_models(params)[i],
                        ) by {
                            assert(token_models(params)[i] == m0[i]);
                        }
                    }
                    let resolved = self.resolve(&body, &extracted);
                    let mut rb = resolved;
                    let ghost rbm = token_models(rb);
                    let ghost pre_exec = token_models(exec);
                    rb.append(&mut exec);
                    exec = rb;
                    proof {
                        assert(al.deep_view() == em[0]);
                        assert(token_models(exec) =~= rbm + pre_exec);
                        assert(spec_step(env0, em, m0, sent, st0) == spec_step(
                            env0,
                            token_models(exec),
                            token_models(params),
                            sent,
                            steps as nat,
                        ));
                    }
                },
                Token::Group(contents) => {
                    let ghost cg = token_models(contents);
                    proof {
                        assert(self.env() == env0);
                    }
                    let sub = match self.eval(contents, steps) {
                        Ok(x) => x,
                        Err(e) => {
                            proof {
                                assert(em[0] == SpecToken::Group(cg));
                                let go = spec_eval(env0, cg, steps as nat);
                                assert(!(go is Done));
                                assert(spec_step(env0, em, pm0, sent, st0) is Failed
                                    || spec_step(env0, em, pm0, sent, st0) is OutOfFuel);
                            }
                            return Err(e);
                        },
                    };
                    let ghost sent0 = sent;
                    proof {
                        assert(em[0] == SpecToken::Group(cg));
                        let go = spec_eval(env0, cg, steps as nat);
                        assert(go matches Reduction::Done(a, b2) && a == token_models(sub));
                        let more = go->Done_1;
                        assert(self.output() =~= old(self).output() + (sent + more));
                        sent = sent + more;
                        assert(self.output() == old(self).output() + sent);
                    }
                    let ghost before = token_models(params);
                    let ghost subm = token_models(sub);
                    params.push(Token::Group(sub));
                    proof {
                        assert(token_models(params) =~= before.push(SpecToken::Group(subm)));
                        assert(spec_step(env0, em, pm0, sent0, st0) == spec_step(
                            env0,
                            token_models(exec),
                            token_models(params),
                            sent,
                            steps as nat,
                        ));
                    }
                },
                Token::Void => {
                    proof {
                        assert(spec_step(env0, em, pm0, sent, st0) == spec_step(
                            env0,
                            token_models(exec),
                            token_models(params),
                            sent,
                            steps as nat,
                        ));
                    }
                },
                other => {
                    let ghost before = token_models(params);
                    let ghost om = other.deep_view();
                    params.push(other);
                    proof {
                        assert(spec_operand(om));
                        assert(token_models(params) =~= before.push(om));
                        assert(token_models(params) =~= pm0.push(om));
                        assert(spec_step(env0, em, pm0, sent, st0) == spec_step(
                            env0,
                            token_models(exec),
                            token_models(params),
                            sent,
                            steps as nat,
                        ));
                    }
                },
            }
        }
        proof {
            assert(token_models(exec).len() == 0);
            assert(spec_step(env0, token_models(exec), token_models(params), sent, steps as nat)
                == Reduction::Done(token_models(params), sent));
            assert(self.output() =~= old(self).output() + sent);
        }
        Ok(params)
    }
}

impl State {
    /// Consumes parsed statement blocks top to bottom: a named block is
    /// inserted into the environment with its synthetic default case
    /// appended — later definitions shadow earlier ones — and each
    /// expression block is reduced, its surviving operand sequence becoming
    /// one unit of program output. The first failing reduction aborts the
    /// run with its diagnostic.
    pub fn codeblock_eval(&mut self, data: Vec<CodeBlock>, fuel: u64) -> (r: Result<
        Vec<Tokens>,
        Diag,
    >)
        requires
            old(self).wf(),
        ensures
            final(self).wf(),
            old(self).output().is_prefix_of(final(self).output()),
            r is Ok ==> final(self).env() == crate::spec_defs_after(
                old(self).env(),
                data.deep_view(),
                data@.len() as int,
            ) && r->Ok_0@.len() == crate::spec_expr_count(data.deep_view(), data@.len() as int),
            r is Ok ==> forall|k: int, i: int|
                0 <= k < r->Ok_0@.len() && 0 <= i < token_models(#[trigger] r->Ok_0@[k]).len()
                    ==> spec_operand(#[trigger] token_models(r->Ok_0@[k])[i]),
            (forall|i: int|
                0 <= i < data.deep_view().len() ==> (#[trigger] data.deep_view()[i]).container
                    is Some) ==> r is Ok,
            match spec_run_blocks(old(self).env(), data.deep_view(), fuel as nat) {
                RunOutcome::RunDone(results) => r is Ok && r->Ok_0@.len() == results.len()
                    && forall|k: int|
                    0 <= k < results.len() ==> token_models(#[trigger] r->Ok_0@[k])
                        == results[k],
                RunOutcome::RunFailed => r is Err,
            },
        decreases fuel, 5int,
    {
        let ghost bd = data.deep_view();
        let mut blocks = data;
        let mut result: Vec<Tokens> = Vec::new();
        let ghost mut accr: Seq<Seq<SpecToken>> = Seq::empty();
        let ghost env0 = old(self).env();
        let mut i: usize = 0;
        let n = blocks.len();
        proof {
            assert(bd.len() == n);
            assert(bd.skip(0) =~= bd);
            assert(bd.skip(0) == bd);
        }
        while i < n
            invariant
                self.wf(),
                old(self).output().is_prefix_of(self.output()),
                i <= n,
                n == bd.len(),
                bd == data.deep_view(),
                blocks@.len() == n - i,
                forall|j: int|
                    0 <= j < n - i ==> (#[trigger] blocks@[j].deep_view()) == bd[i + j],
                self.env() == crate::spec_defs_after(old(self).env(), bd, i as int),
                result@.len() == crate::spec_expr_count(bd, i as int),
                forall|k: int, p: int|
                    0 <= k < result@.len() && 0 <= p < token_models(
                        #[trigger] result@[k],
                    ).len() ==> spec_operand(#[trigger] token_models(result@[k])[p]),
                env0 == old(self).env(),
                result@.len() == accr.len(),
                forall|k: int|
                    0 <= k < accr.len() ==> token_models(#[trigger] result@[k]) == accr[k],
                spec_run_blocks(env0, bd, fuel as nat) == (match spec_run_blocks(
                    self.env(),
                    bd.skip(i as int),
                    fuel as nat,
                ) {
                    RunOutcome::RunDone(rest) => RunOutcome::RunDone(accr + rest),
                    RunOutcome::RunFailed => RunOutcome::RunFailed,
                }),
            decreases n - i,
        {
            let ghost pre = blocks@;
            let block = blocks.remove(0);
            proof {
                assert(block.deep_view() == bd[i as int]);
                assert forall|j: int|
                    0 <= j < n - i - 1 implies (#[trigger] blocks@[j].deep_view()) == bd[i + 1
                    + j] by {
                    assert(blocks@[j] == pre[j + 1]);
                }
            }
            let ghost bmodel = block.deep_view();
            match block.container {
                Some(container) => {
                    proof {
                        assert(bmodel.container == Some(container@));
                    }
                    let mut cases: Vec<Case> = match block.cases {
                        Some(cs) => cs,
                        None => Vec::new(),
                    };
                    let ghost partial = cases.deep_view();
                    proof {
                        match bmodel.cases {
                            Some(cs) => {
                                assert(partial == cs);
                            },
                            None => {
                                assert(partial =~= Seq::<SpecCase>::empty());
                            },
                        }
                    }
                    cases.push((vec![Token::Value(1)], block.default_case));
                    proof {
                        crate::lemma_vec_deep_view_index(cases, cases@.len() - 1);
                        crate::lemma_token_models_is_deep_view(
                            cases@[cases@.len() - 1].0,
                        );
                        crate::lemma_token_models_is_deep_view(
                            cases@[cases@.len() - 1].1,
                        );
                        assert(token_models(cases@[cases@.len() - 1].0) =~= seq![
                            SpecToken::Value(1),
                        ]);
                        assert(cases.deep_view().drop_last() =~= partial);
                        assert(cases.deep_view().last() == (
                            seq![SpecToken::Value(1)],
                            token_models(cases@[cases@.len() - 1].1),
                        ));
                        assert(wf_cases(cases.deep_view()));
                        assert(cases.deep_view() =~= (match bmodel.cases {
                            Some(cs) => cs,
                            None => Seq::<SpecCase>::empty(),
                        }).push((seq![SpecToken::Value(1)], bmodel.default_case)));
                    }
                    self.insert(container, cases);
                    proof {
                        assert(self.env() == crate::spec_defs_after(
                            old(self).env(),
                            bd,
                            i + 1 as int,
                        ));
                        assert(bd.skip(i as int)[0] == bd[i as int]);
                        assert(bd.skip(i as int).drop_first() =~= bd.skip(i + 1 as int));
                        assert(self.env() == crate::spec_define(
                            crate::spec_defs_after(env0, bd, i as int),
                            bd[i as int],
                        ));
                    }
                },
                None => {
                    proof {
                        // under a define-only program this arm cannot be
                        // reached, so reduction failures cannot occur
                        if forall|j: int|
                            0 <= j < data.deep_view().len() ==> (#[trigger] data.deep_view()[
                                j
                            ]).container is Some {
                            assert(bd[i as int].container is Some);
                            assert(false);
                        }
                        assert(bd.skip(i as int)[0] == bd[i as int]);
                        assert(bd.skip(i as int).drop_first() =~= bd.skip(i + 1 as int));
                    }
                    let ghost dcm = token_models(block.default_case);
                    proof {
                        assert(dcm == bd[i as int].default_case);
                    }
                    let out = match self.eval(block.default_case, fuel) {
                        Ok(x) => x,
                        Err(e) => {
                            proof {
                                let eo = spec_eval(
                                    crate::spec_defs_after(env0, bd, i as int),
                                    dcm,
                                    fuel as nat,
                                );
                                assert(!(eo is Done));
                                assert(spec_run_blocks(env0, bd, fuel as nat)
                                    == RunOutcome::RunFailed);
                            }
                            return Err(e);
                        },
                    };
                    let ghost outm = token_models(out);
                    let ghost prevec = result@;
                    let ghost prev_accr = accr;
                    result.push(out);
                    proof {
                        let eo = spec_eval(
                            crate::spec_defs_after(env0, bd, i as int),
                            dcm,
                            fuel as nat,
                        );
                        assert(eo matches Reduction::Done(a, b2) && a == outm);
                        accr = accr.push(outm);
                        assert forall|k: int|
                            0 <= k < accr.len() implies token_models(
                            #[trigger] result@[k],
                        ) == accr[k] by {
                            if k < accr.len() - 1 {
                                assert(result@[k] == prevec[k]);
                                assert(token_models(prevec[k]) == prev_accr[k]);
                            } else {
                                assert(result@[k] == result@[result@.len() - 1]);
                            }
                        }
                        match spec_run_blocks(self.env(), bd.skip(i + 1 as int), fuel as nat) {
                            RunOutcome::RunDone(rest2) => {
                                assert(prev_accr + (seq![outm] + rest2) =~= accr + rest2);
                            },
                            RunOutcome::RunFailed => {},
                        }
                    }
                },
            }
            i = i + 1;
        }
        Ok(result)
    }

    /// Runs a whole pre-tokenized program: parses it into statement blocks
    /// and reduces them in order. Parse failures surface as the list of
    /// accumulated diagnostics; an evaluation failure surfaces as a single
    /// one.
    pub fn apply(
        &mut self,
        code: &Vec<(crate::lexer::LexerToken, crate::diagnostics::Span)>,
        reference: &str,
        fuel: u64,
    ) -> (r: Result<Vec<Tokens>, Vec<Diag>>)
        requires
            old(self).wf(),
        ensures
            final(self).wf(),
            old(self).output().is_prefix_of(final(self).output()),
            r is Err ==> r->Err_0@.len() >= 1,
            (exists|i: int|
                0 <= i < code@.len() && !crate::parser::spec_entry_clean(
                    (#[trigger] code@[i]).0,
                )) ==> r is Err,
            (forall|i: int|
                0 <= i < code@.len() ==> crate::parser::spec_entry_clean(
                    (#[trigger] code@[i]).0,
                )) ==> {
                let blocks = crate::parser::spec_parsed(code@);
                &&& ((forall|k: int|
                    0 <= k < blocks.len() ==> (#[trigger] blocks[k]).container is Some) ==> r
                    is Ok)
                &&& (r is Ok ==> final(self).env() == crate::spec_defs_after(
                    old(self).env(),
                    blocks,
                    blocks.len() as int,
                ) && r->Ok_0@.len() == crate::spec_expr_count(blocks, blocks.len() as int))
                &&& (match spec_run_blocks(old(self).env(), blocks, fuel as nat) {
                    RunOutcome::RunDone(results) => r is Ok && r->Ok_0@.len() == results.len()
                        && forall|k: int|
                        0 <= k < results.len() ==> token_models(#[trigger] r->Ok_0@[k])
                            == results[k],
                    RunOutcome::RunFailed => r is Err,
                })
            },
    {
        let parsed = match self.parser(code, reference) {
            Ok(p) => p,
            Err(es) => {
                return Err(es);
            },
        };
        match self.codeblock_eval(parsed, fuel) {
            Ok(x) => Ok(x),
            Err(d) => {
                let mut v: Vec<Diag> = Vec::new();
                v.push(d);
                Err(v)
            },
        }
    }
}

/// Dispatch is total: whatever the call-site operands, the synthetic
/// default case's predicate — the constant match value — is untouched by
/// substitution, is fully reduced as it stands, and therefore selects its
/// case whenever the walk reaches it. Together with `eval`'s contract this
/// is why guarded dispatch never falls through without a match.
pub proof fn lemma_default_case_matches(ops: Seq<SpecToken>)
    ensures
        spec_resolve(seq![SpecToken::Value(1)], ops) == seq![SpecToken::Value(1)],
        spec_all_inert(seq![SpecToken::Value(1)]),
{
    let pd = seq![SpecToken::Value(1)];
    assert(pd.drop_last() =~= Seq::<SpecToken>::empty());
    assert(spec_resolve(Seq::<SpecToken>::empty(), ops) == Seq::<SpecToken>::empty());
    assert(spec_resolve_token(pd.last(), ops) =~= seq![SpecToken::Value(1)]);
    assert(spec_resolve(pd, ops) =~= seq![SpecToken::Value(1)]);
}

/// Extraction hands a well-typed call exactly its declared arity, and the
/// `i`-th operand it hands over is the `i`-th operand nearest the call.
/// `get_par`'s contract says extraction succeeds exactly on such stacks and
/// returns `spec_extracted`; this pins down what that is.
pub proof fn lemma_extraction_order(stack: Seq<SpecToken>, tags: Seq<Seq<char>>)
    requires
        stack.len() >= tags.len(),
        spec_tags_ok(stack, tags),
    ensures
        spec_extracted(stack, tags.len() as int).len() == tags.len(),
        forall|i: int|
            0 <= i < tags.len() ==> spec_extracted(stack, tags.len() as int)[i] == stack[
                stack.len() - 1 - i
            ],
        forall|i: int|
            0 <= i < tags.len() ==> crate::stdlib::spec_matches_tag(
                tags[i],
                spec_extracted(stack, tags.len() as int)[i],
            ),
{
    let n = tags.len() as int;
    assert forall|i: int|
        0 <= i < n implies spec_extracted(stack, n)[i] == stack[stack.len() - 1 - i] by {
        assert(spec_extracted(stack, n)[i] == stack.subrange(
            stack.len() - n,
            stack.len() as int,
        ).reverse()[i]);
    }
}

} // verus!
