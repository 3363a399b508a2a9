#![allow(unused_imports)]
use vstd::prelude::*;

pub mod diagnostics;
pub mod evaluator;
pub mod lexer;
pub mod parser;
pub mod stdlib;
pub mod utils;

use crate::utils::word_eq;

verus! {

broadcast use vstd::std_specs::vec::group_vec_axioms, vstd::seq::group_seq_axioms;

/// Indexing the deep view of a vector reads the element's deep view.
pub broadcast proof fn lemma_vec_deep_view_index<T: DeepView>(v: Vec<T>, i: int)
    requires
        0 <= i < v.len(),
    ensures
        #[trigger] v.deep_view()[i] == v[i].deep_view(),
{
}


/// A token is both data and instruction: a statement is a flat sequence of
/// tokens, and the evaluator consumes instruction forms (`Function`,
/// `Container`, `ActiveLambda`, `Group`, `Void`) while every other form is an
/// operand that survives reduction unchanged.
///
/// Numbers are 64-bit signed integers; the arithmetic primitives wrap on
/// overflow.
#[derive(Debug, PartialEq)]
pub enum Token {
    Value(i64),
    Function(String),
    FunctionLiteral(String),
    Container(String),
    ContainerLiteral(String),
    Lambda(Vec<Token>),
    ActiveLambda(Vec<Token>),
    Parameter(Range),
    Atom(String),
    Char(char),
    Special(String),
    Group(Vec<Token>),
    List(Vec<Token>),
    Iterator(Vec<Token>),
    Null,
    Void,
}

/// A parameter selector: call-site operands are addressed left to right in
/// their textual order, and the window of operands handed to a call always
/// ends at the operand nearest the call.
///
/// `Full { start, end }` selects the operands at positions `start..=end`
/// (both inclusive); `From { start }` is open toward the call (`start..`);
/// `To { end }` is open toward the beginning (`..end`, `end` exclusive).
#[derive(Debug, Clone, Copy, PartialEq, Eq, Structural)]
pub enum Range {
    Full { start: usize, end: usize },
    From { start: usize },
    To { end: usize },
}

pub type Tokens = Vec<Token>;

/// The mathematical model of a token: strings become character sequences,
/// token vectors become sequences of models, numbers become unbounded
/// integers. All contracts in this crate speak of tokens through this model.
pub enum SpecToken {
    Value(int),
    Function(Seq<char>),
    FunctionLiteral(Seq<char>),
    Container(Seq<char>),
    ContainerLiteral(Seq<char>),
    Lambda(Seq<SpecToken>),
    ActiveLambda(Seq<SpecToken>),
    Parameter(Range),
    Atom(Seq<char>),
    Char(char),
    Special(Seq<char>),
    Group(Seq<SpecToken>),
    List(Seq<SpecToken>),
    Iterator(Seq<SpecToken>),
    Null,
    Void,
}

/// The deep view of a token vector, element by element.
pub open spec fn token_models(v: Vec<Token>) -> Seq<SpecToken>
    decreases v,
{
    Seq::new(
        v@.len(),
        |i: int|
            if 0 <= i < v@.len() {
                v[i].deep_view()
            } else {
                SpecToken::Null
            },
    )
}

impl DeepView for Token {
    type V = SpecToken;

    open spec fn deep_view(&self) -> SpecToken
        decreases self,
    {
        match self {
            Token::Value(n) => SpecToken::Value(*n as int),
            Token::Function(s) => SpecToken::Function(s@),
            Token::FunctionLiteral(s) => SpecToken::FunctionLiteral(s@),
            Token::Container(s) => SpecToken::Container(s@),
            Token::ContainerLiteral(s) => SpecToken::ContainerLiteral(s@),
            Token::Lambda(v) => SpecToken::Lambda(token_models(*v)),
            Token::ActiveLambda(v) => SpecToken::ActiveLambda(token_models(*v)),
            Token::Parameter(r) => SpecToken::Parameter(*r),
            Token::Atom(s) => SpecToken::Atom(s@),
            Token::Char(c) => SpecToken::Char(*c),
            Token::Special(s) => SpecToken::Special(s@),
            Token::Group(v) => SpecToken::Group(token_models(*v)),
            Token::List(v) => SpecToken::List(token_models(*v)),
            Token::Iterator(v) => SpecToken::Iterator(token_models(*v)),
            Token::Null => SpecToken::Null,
            Token::Void => SpecToken::Void,
        }
    }
}

/// One guard case of a procedure: a predicate and its consequent.
pub type Case = (Tokens, Tokens);

/// The model of a guard case.
pub type SpecCase = (Seq<SpecToken>, Seq<SpecToken>);

/// One parsed statement block: a named unconditional binding (`container`
/// set, no `cases`), a named guarded procedure (`container` and `cases`
/// set), or an unnamed expression (only `default_case`).
#[derive(Debug, Default)]
pub struct CodeBlock {
    pub container: Option<String>,
    pub cases: Option<Vec<Case>>,
    pub default_case: Tokens,
}

/// The model of a parsed statement block.
pub struct SpecCodeBlock {
    pub container: Option<Seq<char>>,
    pub cases: Option<Seq<SpecCase>>,
    pub default_case: Seq<SpecToken>,
}

impl DeepView for CodeBlock {
    type V = SpecCodeBlock;

    open spec fn deep_view(&self) -> SpecCodeBlock {
        SpecCodeBlock {
            container: match self.container {
                Some(ref n) => Some(n@),
                None => None,
            },
            cases: match self.cases {
                Some(ref cs) => Some(cs.deep_view()),
                None => None,
            },
            default_case: token_models(self.default_case),
        }
    }
}

/// A case table is well formed when it is non-empty and its final, synthetic
/// default case is guarded by the constant match value: dispatch can then
/// always select some case.
pub open spec fn wf_cases(cases: Seq<SpecCase>) -> bool {
    cases.len() > 0 && cases.last().0 == seq![SpecToken::Value(1)]
}

/// What one statement block does to the environment: a named block defines
/// its procedure, with the synthetic default case appended to whatever
/// guard cases it carries; an expression block leaves the environment
/// alone.
pub open spec fn spec_define(
    env: Map<Seq<char>, Seq<SpecCase>>,
    b: SpecCodeBlock,
) -> Map<Seq<char>, Seq<SpecCase>> {
    match b.container {
        Some(name) => {
            let cases = match b.cases {
                Some(cs) => cs,
                None => Seq::empty(),
            };
            env.insert(name, cases.push((seq![SpecToken::Value(1)], b.default_case)))
        },
        None => env,
    }
}

/// The environment after the first `upto` statement blocks have been
/// processed in order.
pub open spec fn spec_defs_after(
    env: Map<Seq<char>, Seq<SpecCase>>,
    blocks: Seq<SpecCodeBlock>,
    upto: int,
) -> Map<Seq<char>, Seq<SpecCase>>
    decreases upto,
{
    if upto <= 0 {
        env
    } else {
        spec_define(spec_defs_after(env, blocks, upto - 1), blocks[upto - 1])
    }
}

/// How many of the first `upto` blocks are expression statements.
pub open spec fn spec_expr_count(blocks: Seq<SpecCodeBlock>, upto: int) -> int
    decreases upto,
{
    if upto <= 0 {
        0
    } else {
        spec_expr_count(blocks, upto - 1) + (if blocks[upto - 1].container is None {
            1int
        } else {
            0int
        })
    }
}

/// The environment a definition list denotes: later definitions shadow
/// earlier ones.
pub open spec fn defs_env(s: Seq<(Seq<char>, Seq<SpecCase>)>) -> Map<Seq<char>, Seq<SpecCase>>
    decreases s.len(),
{
    if s.len() == 0 {
        Map::empty()
    } else {
        defs_env(s.drop_last()).insert(s.last().0, s.last().1)
    }
}

/// The environment: every named procedure's case table, plus the output the
/// program has produced so far. It is built once, before any expression
/// statement is reduced, and the evaluator only reads the definitions.
#[derive(Debug)]
pub struct State {
    defs: Vec<(String, Vec<Case>)>,
    pub out: Vec<String>,
}

impl State {
    /// The mapping from procedure name to case table that this state holds.
    pub closed spec fn env(&self) -> Map<Seq<char>, Seq<SpecCase>> {
        defs_env(self.defs.deep_view())
    }

    /// The output lines produced so far.
    pub closed spec fn output(&self) -> Seq<Seq<char>> {
        self.out.deep_view()
    }

    /// Well-formedness: procedure names are stored once each, and every
    /// case table ends in the synthetic default case.
    pub closed spec fn wf(&self) -> bool {
        let d = self.defs.deep_view();
        &&& forall|i: int, j: int| 0 <= i < j < d.len() ==> d[i].0 != d[j].0
        &&& forall|i: int| 0 <= i < d.len() ==> wf_cases((#[trigger] d[i]).1)
    }

    /// An empty environment with no output.
    pub fn new() -> (s: State)
        ensures
            s.wf(),
            s.env() == Map::<Seq<char>, Seq<SpecCase>>::empty(),
            s.output() == Seq::<Seq<char>>::empty(),
    {
        let s = State { defs: Vec::new(), out: Vec::new() };
        proof {
            assert(s.defs.deep_view() =~= Seq::<(Seq<char>, Seq<SpecCase>)>::empty());
            assert(s.out.deep_view() =~= Seq::<Seq<char>>::empty());
        }
        s
    }

    /// Defines or redefines a procedure. The case table must already carry
    /// its synthetic default case.
    pub fn insert(&mut self, name: String, cases: Vec<Case>)
        requires
            old(self).wf(),
            wf_cases(cases.deep_view()),
        ensures
            final(self).wf(),
            final(self).env() == old(self).env().insert(name@, cases.deep_view()),
            final(self).output() == old(self).output(),
    {
        broadcast use lemma_vec_deep_view_index;

        let ghost d0 = self.defs.deep_view();
        let ghost nm = name@;
        let ghost newcases = cases.deep_view();
        let n = self.defs.len();
        let mut i: usize = 0;
        while i < n
            invariant
                i <= n,
                n == self.defs.len(),
                nm == name@,
                newcases == cases.deep_view(),
                wf_cases(newcases),
                self.defs.deep_view() == d0,
                d0 == old(self).defs.deep_view(),
                self.out == old(self).out,
                forall|p: int, q: int| 0 <= p < q < d0.len() ==> d0[p].0 != d0[q].0,
                forall|p: int| 0 <= p < d0.len() ==> wf_cases((#[trigger] d0[p]).1),
                forall|j: int| 0 <= j < i ==> d0[j].0 != nm,
            decreases n - i,
        {
            if word_eq(self.defs[i].0.as_str(), name.as_str()) {
                proof {
                    lemma_vec_deep_view_index(self.defs, i as int);
                    assert(d0[i as int].0 == self.defs[i as int].0@);
                    assert(d0[i as int].0 == nm);
                }
                self.defs[i] = (name, cases);
                proof {
                    let d1 = self.defs.deep_view();
                    assert forall|p: int| 0 <= p < d1.len() implies d1[p] == (if p == i as int {
                        (nm, newcases)
                    } else {
                        d0[p]
                    }) by {
                        lemma_vec_deep_view_index(self.defs, p);
                    }
                    assert(d1 =~= d0.update(i as int, (d0[i as int].0, newcases)));
                    lemma_defs_env_update(d0, i as int, newcases);
                    assert forall|p: int, q: int| 0 <= p < q < d1.len() implies d1[p].0
                        != d1[q].0 by {
                        assert(d0[i as int].0 == nm);
                        assert(d1[p].0 == d0[p].0 && d1[q].0 == d0[q].0);
                    }
                    assert forall|p: int| 0 <= p < d1.len() implies wf_cases(
                        (#[trigger] d1[p]).1,
                    ) by {
                        if p != i {
                            assert(d1[p] == d0[p]);
                        }
                    }
                }
                return ;
            }
            proof {
                lemma_vec_deep_view_index(self.defs, i as int);
                assert(d0[i as int].0 == self.defs[i as int].0@);
            }
            i = i + 1;
        }
        self.defs.push((name, cases));
        proof {
            let d1 = self.defs.deep_view();
            assert forall|p: int| 0 <= p < d1.len() implies d1[p] == (if p < d0.len() {
                d0[p]
            } else {
                (nm, newcases)
            }) by {
                lemma_vec_deep_view_index(self.defs, p);
            }
            assert(d1.drop_last() =~= d0);
            assert(d1.last() == (nm, newcases));
            assert(defs_env(d1) == defs_env(d0).insert(nm, newcases));
            assert forall|p: int, q: int| 0 <= p < q < d1.len() implies d1[p].0 != d1[q].0 by {
                if q == d1.len() - 1 {
                    assert(d1[p] == d0[p]);
                    assert(d0[p].0 != nm);
                } else {
                    assert(d1[p] == d0[p] && d1[q] == d0[q]);
                }
            }
            assert forall|p: int| 0 <= p < d1.len() implies wf_cases((#[trigger] d1[p]).1) by {
                if p != d1.len() - 1 {
                    assert(d1[p] == d0[p]);
                }
            }
        }
    }

    /// Appends one rendered line to the program output.
    pub fn push_out(&mut self, line: String)
        ensures
            final(self).wf() == old(self).wf(),
            final(self).env() == old(self).env(),
            final(self).output() == old(self).output().push(line@),
    {
        let ghost before = self.out.deep_view();
        let ghost lv = line@;
        self.out.push(line);
        proof {
            assert forall|j: int|
                0 <= j < self.out.deep_view().len() implies self.out.deep_view()[j]
                == before.push(lv)[j] by {
                lemma_vec_deep_view_index(self.out, j);
                if j < before.len() {
                    lemma_vec_deep_view_index(old(self).out, j);
                }
            }
            assert(self.out.deep_view() =~= before.push(lv));
            assert(self.defs == old(self).defs);
            assert(self.defs.deep_view() == old(self).defs.deep_view());
            assert(self.wf() <==> old(self).wf());
            assert(self.env() == old(self).env());
        }
    }

    /// Looks a procedure up by name.
    pub fn get(&self, name: &str) -> (r: Option<&Vec<Case>>)
        requires
            self.wf(),
        ensures
            match r {
                Some(cases) => self.env().contains_key(name@) && cases.deep_view() == self.env()[
                    name@
                ] && wf_cases(cases.deep_view()),
                None => !self.env().contains_key(name@),
            },
    {
        broadcast use lemma_vec_deep_view_index;

        let ghost d = self.defs.deep_view();
        let n = self.defs.len();
        let mut i: usize = 0;
        while i < n
            invariant
                i <= n,
                n == self.defs.len(),
                d == self.defs.deep_view(),
                self.wf(),
                forall|j: int| 0 <= j < i ==> d[j].0 != name@,
            decreases n - i,
        {
            if word_eq(self.defs[i].0.as_str(), name) {
                proof {
                    lemma_vec_deep_view_index(self.defs, i as int);
                    assert(d[i as int].0 == name@);
                    lemma_defs_env_found(d, i as int);
                    assert(self.defs[i as int].1.deep_view() == d[i as int].1);
                }
                return Some(&self.defs[i].1);
            }
            proof {
                lemma_vec_deep_view_index(self.defs, i as int);
                assert(d[i as int].0 == self.defs[i as int].0@);
            }
            i = i + 1;
        }
        proof {
            lemma_defs_env_absent(d, name@);
        }
        None
    }
}

impl State {
    /// A deep copy of the whole state: guard predicates are reduced against
    /// such a copy, so that their evaluation cannot disturb the enclosing
    /// reduction.
    pub fn duplicate(&self) -> (r: State)
        ensures
            r.env() == self.env(),
            r.wf() <==> self.wf(),
            r.output() == self.output(),
    {
        let mut defs: Vec<(String, Vec<Case>)> = Vec::new();
        let mut i: usize = 0;
        while i < self.defs.len()
            invariant
                i <= self.defs.len(),
                defs@.len() == i,
                forall|j: int|
                    0 <= j < i ==> (#[trigger] defs@[j].deep_view())
                        == self.defs@[j].deep_view(),
            decreases self.defs.len() - i,
        {
            let name = self.defs[i].0.clone();
            let cases = crate::utils::duplicate_cases(&self.defs[i].1);
            defs.push((name, cases));
            i = i + 1;
        }
        let mut out: Vec<String> = Vec::new();
        let mut k: usize = 0;
        while k < self.out.len()
            invariant
                k <= self.out.len(),
                out@.len() == k,
                forall|j: int| 0 <= j < k ==> (#[trigger] out@[j]) == self.out@[j],
            decreases self.out.len() - k,
        {
            out.push(self.out[k].clone());
            k = k + 1;
        }
        let r = State { defs, out };
        proof {
            assert forall|j: int|
                0 <= j < self.defs@.len() implies r.defs.deep_view()[j]
                == self.defs.deep_view()[j] by {
                lemma_vec_deep_view_index(r.defs, j);
                lemma_vec_deep_view_index(self.defs, j);
            }
            assert(r.defs.deep_view() =~= self.defs.deep_view());
            assert forall|j: int|
                0 <= j < self.out@.len() implies r.out.deep_view()[j]
                == self.out.deep_view()[j] by {
                lemma_vec_deep_view_index(r.out, j);
                lemma_vec_deep_view_index(self.out, j);
            }
            assert(r.out.deep_view() =~= self.out.deep_view());
        }
        r
    }
}

/// Replacing the cases of the entry that already holds a key denotes the
/// same environment as inserting that key anew.
proof fn lemma_defs_env_update(
    s: Seq<(Seq<char>, Seq<SpecCase>)>,
    i: int,
    cases: Seq<SpecCase>,
)
    requires
        0 <= i < s.len(),
        forall|p: int, q: int| 0 <= p < q < s.len() ==> s[p].0 != s[q].0,
    ensures
        defs_env(s.update(i, (s[i].0, cases))) == defs_env(s).insert(s[i].0, cases),
    decreases s.len(),
{
    let t = s.update(i, (s[i].0, cases));
    if i == s.len() - 1 {
        assert(t.drop_last() =~= s.drop_last());
        assert(defs_env(t) =~= defs_env(s).insert(s[i].0, cases));
    } else {
        assert(t.drop_last() =~= s.drop_last().update(i, (s[i].0, cases)));
        lemma_defs_env_update(s.drop_last(), i, cases);
        assert(s.drop_last()[i] == s[i]);
        // the last entry's name differs from the updated one, so the two
        // final inserts commute
        assert(s.last().0 != s[i].0);
        assert(defs_env(t) =~= defs_env(s).insert(s[i].0, cases));
    }
}

/// A scan that found `name` at the first position it occurs, in a
/// duplicate-free list, reads exactly what the environment holds.
proof fn lemma_defs_env_found(s: Seq<(Seq<char>, Seq<SpecCase>)>, i: int)
    requires
        0 <= i < s.len(),
        forall|p: int, q: int| 0 <= p < q < s.len() ==> s[p].0 != s[q].0,
    ensures
        defs_env(s).contains_key(s[i].0),
        defs_env(s)[s[i].0] == s[i].1,
    decreases s.len(),
{
    if i == s.len() - 1 {
    } else {
        assert(s.drop_last()[i] == s[i]);
        lemma_defs_env_found(s.drop_last(), i);
        assert(s.last().0 != s[i].0);
    }
}

/// A name that occurs nowhere in the list is not in the environment.
proof fn lemma_defs_env_absent(s: Seq<(Seq<char>, Seq<SpecCase>)>, name: Seq<char>)
    requires
        forall|j: int| 0 <= j < s.len() ==> (#[trigger] s[j]).0 != name,
    ensures
        !defs_env(s).contains_key(name),
    decreases s.len(),
{
    if s.len() > 0 {
        assert(forall|j: int|
            0 <= j < s.drop_last().len() ==> (#[trigger] s.drop_last()[j]).0 != name);
        lemma_defs_env_absent(s.drop_last(), name);
    }
}

/// `token_models` is exactly the deep view that `Vec<Token>` gets from vstd.
pub broadcast proof fn lemma_token_models_is_deep_view(v: Vec<Token>)
    ensures
        #[trigger] token_models(v) == v.deep_view(),
{
    assert(token_models(v) =~= v.deep_view());
}

} // verus!
