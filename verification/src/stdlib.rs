//! The built-in primitive library: the registry of named operations the
//! evaluator dispatches into, each with the ordered operand type tags its
//! extraction step enforces.

#![allow(unused_imports)]
use vstd::prelude::*;

use crate::diagnostics::{simple_diag, simple_diag_with, Diag, Label, Severity, Span};
use crate::utils::{
    as_nums, convert, duplicate_tokens, spec_as_num, spec_as_string, spec_convert, spec_type_of,
    type_of, word_eq,
};
use crate::evaluator::{spec_activate, spec_call, spec_fold_loop, spec_map_loop, PrimOutcome};
use crate::{token_models, Range, SpecToken, State, Token, Tokens};
use vstd::string::{StrSliceExecFns, StringExecFns};

verus! {

broadcast use vstd::std_specs::vec::group_vec_axioms, vstd::seq::group_seq_axioms;

/// Whether a token satisfies a required operand tag: the wildcard accepts
/// anything, the two composite categories accept their fixed variant sets,
/// and any other tag is a concrete variant name.
pub open spec fn spec_matches_tag(tag: Seq<char>, t: SpecToken) -> bool {
    if tag == "Any"@ {
        true
    } else if tag == "Iterable"@ {
        t is Group || t is List
    } else if tag == "Literal"@ {
        t is Lambda || t is FunctionLiteral || t is ContainerLiteral
    } else {
        spec_type_of(t) == tag
    }
}

/// Whether a token satisfies a required operand tag.
pub fn matches_tag(tag: &str, t: &Token) -> (r: bool)
    ensures
        r == spec_matches_tag(tag@, t.deep_view()),
{
    if word_eq(tag, "Any") {
        true
    } else if word_eq(tag, "Iterable") {
        matches!(t, Token::Group(_) | Token::List(_))
    } else if word_eq(tag, "Literal") {
        matches!(t, Token::Lambda(_) | Token::FunctionLiteral(_) | Token::ContainerLiteral(_))
    } else {
        let tt = type_of(t);
        word_eq(tt.as_str(), tag)
    }
}

/// The ordered operand tags of the named primitive, `None` for a name the
/// registry does not know.
pub open spec fn spec_signature(name: Seq<char>) -> Option<Seq<Seq<char>>> {
    if name == "type"@ {
        Some(seq!["Any"@])
    } else if name == "sum"@ || name == "len"@ || name == "reverse"@ || name == "iter"@ || name
        == "head"@ || name == "tail"@ {
        Some(seq!["Iterable"@])
    } else if name == "add"@ || name == "+"@ || name == "sub"@ || name == "-"@ || name == "mul"@
        || name == "*"@ || name == "div"@ || name == "/"@ || name == "mod"@ || name == "%"@
        || name == "greater"@ || name == "less"@ || name == "or"@ || name == "and"@ {
        Some(seq!["Value"@, "Value"@])
    } else if name == "not"@ {
        Some(seq!["Value"@])
    } else if name == "OUTPUT"@ || name == "axe"@ {
        Some(seq!["Any"@])
    } else if name == "="@ || name == "eq"@ || name == "swap"@ {
        Some(seq!["Any"@, "Any"@])
    } else if name == "call"@ {
        Some(seq!["Literal"@])
    } else if name == "map"@ {
        Some(seq!["Literal"@, "Iterator"@])
    } else if name == "foldr"@ || name == "foldl"@ {
        Some(seq!["Any"@, "Literal"@, "Iterator"@])
    } else if name == "collect_group"@ || name == "collect_list"@ {
        Some(seq!["Iterator"@])
    } else if name == "lambda"@ {
        Some(seq!["List"@])
    } else {
        None
    }
}

fn sig1(a: &str) -> (r: Vec<String>)
    ensures
        r@.len() == 1,
        r.deep_view() =~= seq![a@],
{
    let mut v: Vec<String> = Vec::new();
    v.push(a.to_owned());
    proof {
        crate::lemma_vec_deep_view_index(v, 0);
        assert(v.deep_view() =~= seq![a@]);
    }
    v
}

fn sig2(a: &str, b: &str) -> (r: Vec<String>)
    ensures
        r@.len() == 2,
        r.deep_view() =~= seq![a@, b@],
{
    let a_s = a.to_owned();
    let b_s = b.to_owned();
    let mut v: Vec<String> = Vec::new();
    v.push(a_s);
    v.push(b_s);
    proof {
        assert(v@[0]@ == a@ && v@[1]@ == b@);
        crate::lemma_vec_deep_view_index(v, 0);
        crate::lemma_vec_deep_view_index(v, 1);
        assert(v.deep_view() =~= seq![a@, b@]);
    }
    v
}

fn sig3(a: &str, b: &str, c: &str) -> (r: Vec<String>)
    ensures
        r@.len() == 3,
        r.deep_view() =~= seq![a@, b@, c@],
{
    let a_s = a.to_owned();
    let b_s = b.to_owned();
    let c_s = c.to_owned();
    let mut v: Vec<String> = Vec::new();
    v.push(a_s);
    v.push(b_s);
    v.push(c_s);
    proof {
        assert(v@[0]@ == a@ && v@[1]@ == b@ && v@[2]@ == c@);
        crate::lemma_vec_deep_view_index(v, 0);
        crate::lemma_vec_deep_view_index(v, 1);
        crate::lemma_vec_deep_view_index(v, 2);
        assert(v.deep_view() =~= seq![a@, b@, c@]);
    }
    v
}

/// Looks a primitive's operand tags up by name; `None` when the name is not
/// a primitive, in which case the parser treats the name as a user
/// procedure.
pub fn function_signature(name: &str) -> (r: Option<Vec<String>>)
    ensures
        match r {
            Some(tags) => spec_signature(name@) == Some(tags.deep_view()),
            None => spec_signature(name@) is None,
        },
{
    if word_eq(name, "type") {
        Some(sig1("Any"))
    } else if word_eq(name, "sum") || word_eq(name, "len") || word_eq(name, "reverse")
        || word_eq(name, "iter") || word_eq(name, "head") || word_eq(name, "tail") {
        Some(sig1("Iterable"))
    } else if word_eq(name, "add") || word_eq(name, "+") || word_eq(name, "sub") || word_eq(
        name,
        "-",
    ) || word_eq(name, "mul") || word_eq(name, "*") || word_eq(name, "div") || word_eq(name, "/")
        || word_eq(name, "mod") || word_eq(name, "%") || word_eq(name, "greater") || word_eq(
        name,
        "less",
    ) || word_eq(name, "or") || word_eq(name, "and") {
        Some(sig2("Value", "Value"))
    } else if word_eq(name, "not") {
        Some(sig1("Value"))
    } else if word_eq(name, "OUTPUT") || word_eq(name, "axe") {
        Some(sig1("Any"))
    } else if word_eq(name, "=") || word_eq(name, "eq") || word_eq(name, "swap") {
        Some(sig2("Any", "Any"))
    } else if word_eq(name, "call") {
        Some(sig1("Literal"))
    } else if word_eq(name, "map") {
        Some(sig2("Literal", "Iterator"))
    } else if word_eq(name, "foldr") || word_eq(name, "foldl") {
        Some(sig3("Any", "Literal", "Iterator"))
    } else if word_eq(name, "collect_group") || word_eq(name, "collect_list") {
        Some(sig1("Iterator"))
    } else if word_eq(name, "lambda") {
        Some(sig1("List"))
    } else {
        None
    }
}

/// Two's-complement wrap-around of an unbounded integer into the 64-bit
/// signed range.
pub open spec fn wrap_i64(n: int) -> int {
    (n + 0x8000000000000000) % 0x10000000000000000 - 0x8000000000000000
}

/// Wrapping 64-bit addition.
pub fn wrap_add(x: i64, y: i64) -> (r: i64)
    ensures
        r as int == wrap_i64(x as int + y as int),
{
    let s: i128 = x as i128 + y as i128;
    proof {
        lemma_wrap_in_range(x as int + y as int);
    }
    if s > i64::MAX as i128 {
        ((s - 0x10000000000000000) as i64)
    } else if s < i64::MIN as i128 {
        ((s + 0x10000000000000000) as i64)
    } else {
        s as i64
    }
}

proof fn lemma_wrap_in_range(n: int)
    ensures
        -0x8000000000000000 <= wrap_i64(n) <= 0x7fffffffffffffff,
        i64::MIN <= n <= i64::MAX ==> wrap_i64(n) == n,
        i64::MAX < n < 0x10000000000000000 ==> wrap_i64(n) == n - 0x10000000000000000,
        -0x10000000000000000 < n < i64::MIN ==> wrap_i64(n) == n + 0x10000000000000000,
{
    let m: int = 0x10000000000000000;
    let b: int = n + 0x8000000000000000;
    vstd::arithmetic::div_mod::lemma_mod_bound(b, m);
    if 0 <= b < m {
        vstd::arithmetic::div_mod::lemma_small_mod(b as nat, m as nat);
    } else if m <= b < 2 * m {
        vstd::arithmetic::div_mod::lemma_mod_sub_multiples_vanish(b, m);
        vstd::arithmetic::div_mod::lemma_small_mod((b - m) as nat, m as nat);
    } else if -m <= b < 0 {
        vstd::arithmetic::div_mod::lemma_mod_add_multiples_vanish(b, m);
        vstd::arithmetic::div_mod::lemma_small_mod((b + m) as nat, m as nat);
    }
}

/// The unique 64-bit-signed representative of `n` modulo `2^64`.
proof fn lemma_wrap_unique(n: int, v: int, k: int)
    requires
        -0x8000000000000000 <= v < 0x8000000000000000,
        n == v + k * 0x10000000000000000,
    ensures
        wrap_i64(n) == v,
{
    let m: int = 0x10000000000000000;
    let b: int = v + 0x8000000000000000;
    assert(n + 0x8000000000000000 == k * m + b);
    vstd::arithmetic::div_mod::lemma_mod_multiples_vanish(k, b, m);
    vstd::arithmetic::div_mod::lemma_small_mod(b as nat, m as nat);
}

fn magnitude(x: i64) -> (m: u64)
    ensures
        x >= 0 ==> m as int == x as int,
        x < 0 ==> m as int == -(x as int),
{
    if x < 0 {
        ((-(x + 1)) as u64) + 1
    } else {
        x as u64
    }
}

/// Wrapping 64-bit multiplication.
pub fn wrap_mul(x: i64, y: i64) -> (r: i64)
    ensures
        r as int == wrap_i64(x as int * y as int),
{
    let mx: u128 = magnitude(x) as u128;
    let my: u128 = magnitude(y) as u128;
    proof {
        assert(mx * my <= 0x8000000000000000 * 0x8000000000000000) by (nonlinear_arith)
            requires
                mx <= 0x8000000000000000,
                my <= 0x8000000000000000,
        ;
    }
    let pm: u128 = mx * my;
    let m: u128 = 0x10000000000000000;
    let low: u128 = pm % m;
    let ghost n = x as int * y as int;
    let negative = (x < 0) != (y < 0);
    proof {
        vstd::arithmetic::div_mod::lemma_fundamental_div_mod(pm as int, m as int);
        if negative {
            assert(n == -(pm as int)) by (nonlinear_arith)
                requires
                    mx as int == if x >= 0 { x as int } else { -(x as int) },
                    my as int == if y >= 0 { y as int } else { -(y as int) },
                    (x < 0) != (y < 0),
                    pm as int == mx as int * my as int,
                    n == x as int * y as int,
            ;
        } else {
            assert(n == pm as int) by (nonlinear_arith)
                requires
                    mx as int == if x >= 0 { x as int } else { -(x as int) },
                    my as int == if y >= 0 { y as int } else { -(y as int) },
                    !((x < 0) != (y < 0)),
                    pm as int == mx as int * my as int,
                    n == x as int * y as int,
            ;
        }
    }
    let ghost q = pm as int / m as int;
    let ghost mi = m as int;
    proof {
        assert(pm as int == mi * q + low as int);
        vstd::arithmetic::div_mod::lemma_mod_bound(pm as int, mi);
    }
    if !negative {
        if low > i64::MAX as u128 {
            let r = ((low as i128) - (m as i128)) as i64;
            proof {
                assert(n == (low as int - mi) + (q + 1) * mi) by (nonlinear_arith)
                    requires
                        n == mi * q + low as int,
                ;
                lemma_wrap_unique(n, low as int - mi, q + 1);
            }
            r
        } else {
            let r = low as i64;
            proof {
                assert(n == low as int + q * mi) by (nonlinear_arith)
                    requires
                        n == mi * q + low as int,
                ;
                lemma_wrap_unique(n, low as int, q);
            }
            r
        }
    } else {
        if low == 0 {
            proof {
                assert(n == 0 + (-q) * mi) by (nonlinear_arith)
                    requires
                        n == -(mi * q + 0),
                ;
                lemma_wrap_unique(n, 0, -q);
            }
            0i64
        } else {
            let high = m - low;
            if high > i64::MAX as u128 {
                let r = ((high as i128) - (m as i128)) as i64;
                proof {
                    assert(n == (high as int - mi) + (-q) * mi) by (nonlinear_arith)
                        requires
                            n == -(mi * q + low as int),
                            high as int == mi - low as int,
                    ;
                    lemma_wrap_unique(n, high as int - mi, -q);
                }
                r
            } else {
                let r = high as i64;
                proof {
                    assert(n == high as int + (-q - 1) * mi) by (nonlinear_arith)
                        requires
                            n == -(mi * q + low as int),
                            high as int == mi - low as int,
                    ;
                    lemma_wrap_unique(n, high as int, -q - 1);
                }
                r
            }
        }
    }
}

/// Shifting by a multiple of the modulus does not change the wrapped value.
proof fn lemma_wrap_shift(t: int, k: int)
    ensures
        wrap_i64(t + k * 0x10000000000000000) == wrap_i64(t),
{
    let m: int = 0x10000000000000000;
    assert((t + k * m) + 0x8000000000000000 == k * m + (t + 0x8000000000000000));
    vstd::arithmetic::div_mod::lemma_mod_multiples_vanish(k, t + 0x8000000000000000, m);
}

/// Wrapping first and then adding more wraps to the same value as adding
/// everything exactly and wrapping once.
proof fn lemma_wrap_absorb(a: int, b: int)
    ensures
        wrap_i64(wrap_i64(a) + b) == wrap_i64(a + b),
{
    let m: int = 0x10000000000000000;
    let h: int = 0x8000000000000000;
    vstd::arithmetic::div_mod::lemma_fundamental_div_mod(a + h, m);
    let k: int = (a + h) / m;
    assert(wrap_i64(a) == a - k * m);
    assert(wrap_i64(a) + b == (a + b) + (-k) * m) by (nonlinear_arith)
        requires
            wrap_i64(a) == a - k * m,
    ;
    lemma_wrap_shift(a + b, -k);
}

/// The numeric sum a token sequence denotes: number tokens contribute their
/// value, every other token contributes one.
pub open spec fn spec_sum_tokens(s: Seq<SpecToken>) -> int
    decreases s.len(),
{
    if s.len() == 0 {
        0
    } else {
        spec_sum_tokens(s.drop_last()) + spec_as_num(s.last())
    }
}

/// The `type` primitive: the operand's type tag, encoded as a string value.
pub fn type_of_container(par: &Vec<Token>) -> (r: Result<Token, Diag>)
    requires
        par@.len() == 1,
    ensures
        r is Ok,
        r->Ok_0.deep_view() == SpecToken::Group(
            crate::utils::spec_text_tokens(spec_type_of(token_models(*par)[0])),
        ),
        spec_as_string(r->Ok_0.deep_view()) == Some(spec_type_of(token_models(*par)[0])),
{
    let tag = type_of(&par[0]);
    proof {
        assert(token_models(*par)[0] == par[0].deep_view());
    }
    Ok(crate::utils::encode_string(tag.as_str()))
}

/// Whether every member of an aggregate is a number token.
pub open spec fn spec_all_values(s: Seq<SpecToken>) -> bool {
    forall|i: int| 0 <= i < s.len() ==> (#[trigger] s[i]) is Value
}

/// The position of the first member that is not a number token.
pub open spec fn spec_first_non_value(s: Seq<SpecToken>) -> int
    decreases s.len(),
{
    if s.len() == 0 {
        0
    } else if !(s[0] is Value) {
        0
    } else {
        1 + spec_first_non_value(s.drop_first())
    }
}

proof fn lemma_first_non_value(s: Seq<SpecToken>)
    requires
        !spec_all_values(s),
    ensures
        0 <= spec_first_non_value(s) < s.len(),
        !(s[spec_first_non_value(s)] is Value),
        forall|j: int| 0 <= j < spec_first_non_value(s) ==> (#[trigger] s[j]) is Value,
    decreases s.len(),
{
    if s.len() > 0 && s[0] is Value {
        assert(!spec_all_values(s.drop_first())) by {
            let k = choose|k: int| 0 <= k < s.len() && !((#[trigger] s[k]) is Value);
            assert(s.drop_first()[k - 1] == s[k]);
        }
        lemma_first_non_value(s.drop_first());
        assert forall|j: int|
            0 <= j < spec_first_non_value(s) implies (#[trigger] s[j]) is Value by {
            if j > 0 {
                assert(s.drop_first()[j - 1] == s[j]);
            }
        }
        assert(s[spec_first_non_value(s)] == s.drop_first()[spec_first_non_value(
            s.drop_first(),
        )]);
    }
}

/// The report `sum` raises for an aggregate member that is not a number.
pub open spec fn spec_sum_mismatch_message(t: SpecToken) -> Seq<char> {
    "This has the type of "@ + spec_type_of(t) + " but expected "@ + "Value"@ + "."@
}

/// The `sum` primitive: the wrapped numeric sum of an aggregate's members.
/// A member that is not a number cannot be summed: the call fails with a
/// mismatched-types report naming that member's tag and the expected one.
pub fn sum(par: &Vec<Token>) -> (r: Result<Token, Diag>)
    requires
        par@.len() == 1,
        token_models(*par)[0] is Group || token_models(*par)[0] is List,
    ensures
        token_models(*par)[0] matches SpecToken::Group(s) ==> (r is Ok <==> spec_all_values(
            s,
        )),
        token_models(*par)[0] matches SpecToken::List(s) ==> (r is Ok <==> spec_all_values(s)),
        token_models(*par)[0] matches SpecToken::Group(s) ==> (spec_all_values(s)
            ==> r->Ok_0.deep_view() == SpecToken::Value(wrap_i64(spec_sum_tokens(s)))),
        token_models(*par)[0] matches SpecToken::List(s) ==> (spec_all_values(s)
            ==> r->Ok_0.deep_view() == SpecToken::Value(wrap_i64(spec_sum_tokens(s)))),
        token_models(*par)[0] matches SpecToken::Group(s) ==> (!spec_all_values(s) ==> r
            is Err && r->Err_0.deep_view().message == "Mismatched Types"@
            && r->Err_0.deep_view().labels.len() == 1
            && r->Err_0.deep_view().labels[0].message == spec_sum_mismatch_message(
            s[spec_first_non_value(s)],
        )),
        token_models(*par)[0] matches SpecToken::List(s) ==> (!spec_all_values(s) ==> r is Err
            && r->Err_0.deep_view().message == "Mismatched Types"@
            && r->Err_0.deep_view().labels.len() == 1
            && r->Err_0.deep_view().labels[0].message == spec_sum_mismatch_message(
            s[spec_first_non_value(s)],
        )),
{
    let x = match &par[0] {
        Token::Group(x) => x,
        Token::List(x) => x,
        _ => {
            proof {
                assert(token_models(*par)[0] == par[0].deep_view());
            }
            return unreached();
        },
    };
    proof {
        assert(token_models(*par)[0] == par[0].deep_view());
    }
    let ghost s = token_models(*x);
    let mut acc: i64 = 0;
    let mut i: usize = 0;
    proof {
        assert(s.subrange(0, 0) =~= Seq::<SpecToken>::empty());
        assert(s.len() == x@.len());
    }
    while i < x.len()
        invariant
            i <= x.len(),
            s == token_models(*x),
            s.len() == x@.len(),
            par@.len() == 1,
            token_models(*par)[0] == SpecToken::Group(s) || token_models(*par)[0]
                == SpecToken::List(s),
            forall|j: int| 0 <= j < i ==> (#[trigger] s[j]) is Value,
            acc as int == wrap_i64(spec_sum_tokens(s.subrange(0, i as int))),
        decreases x.len() - i,
    {
        let member = match &x[i] {
            Token::Value(n) => *n,
            _ => {
                let tag = type_of(&x[i]);
                let mut detail = String::from_str("This has the type of ");
                detail.append(tag.as_str());
                detail.append(" but expected ");
                detail.append("Value");
                detail.append(".");
                proof {
                    assert(s[i as int] == x[i as int].deep_view());
                    assert(!(s[i as int] is Value));
                    assert(!spec_all_values(s));
                    lemma_first_non_value(s);
                    assert(spec_first_non_value(s) == i as int);
                    assert(detail@ == spec_sum_mismatch_message(s[i as int]));
                }
                return Err(simple_diag_with("Mismatched Types", detail));
            },
        };
        let ghost partial = spec_sum_tokens(s.subrange(0, i as int));
        acc = wrap_add(acc, member);
        proof {
            assert(s[i as int] == x[i as int].deep_view());
            assert(member as int == spec_as_num(s[i as int]));
            lemma_wrap_absorb(partial, member as int);
            let cur = s.subrange(0, i + 1 as int);
            assert(cur.drop_last() =~= s.subrange(0, i as int));
            assert(cur.last() == s[i as int]);
        }
        i = i + 1;
    }
    proof {
        assert(s.subrange(0, s.len() as int) =~= s);
    }
    Ok(Token::Value(acc))
}

/// The `add` primitive, wrapping.
pub fn add(par: &Vec<Token>) -> (r: Result<Token, Diag>)
    requires
        par@.len() == 2,
        token_models(*par)[0] is Value,
        token_models(*par)[1] is Value,
    ensures
        r is Ok,
        r->Ok_0.deep_view() == SpecToken::Value(
            wrap_i64(token_models(*par)[0]->Value_0 + token_models(*par)[1]->Value_0),
        ),
{
    proof {
        assert(token_models(*par)[0] == par[0].deep_view());
        assert(token_models(*par)[1] == par[1].deep_view());
    }
    match (&par[0], &par[1]) {
        (Token::Value(x), Token::Value(y)) => Ok(Token::Value(wrap_add(*x, *y))),
        _ => unreached(),
    }
}

/// The `sub` primitive: the second-nearest operand minus the nearest one,
/// wrapping.
pub fn sub(par: &Vec<Token>) -> (r: Result<Token, Diag>)
    requires
        par@.len() == 2,
        token_models(*par)[0] is Value,
        token_models(*par)[1] is Value,
    ensures
        r is Ok,
        r->Ok_0.deep_view() == SpecToken::Value(
            wrap_i64(token_models(*par)[1]->Value_0 - token_models(*par)[0]->Value_0),
        ),
{
    proof {
        assert(token_models(*par)[0] == par[0].deep_view());
        assert(token_models(*par)[1] == par[1].deep_view());
    }
    match (&par[0], &par[1]) {
        (Token::Value(x), Token::Value(y)) => {
            let nx = wrap_neg(*x);
            let r = wrap_add(*y, nx);
            proof {
                lemma_wrap_absorb(-(*x as int), *y as int);
                assert(*y as int + wrap_i64(-(*x as int)) == wrap_i64(-(*x as int)) + *y as int);
            }
            Ok(Token::Value(r))
        },
        _ => unreached(),
    }
}

/// Wrapping 64-bit negation.
fn wrap_neg(x: i64) -> (r: i64)
    ensures
        r as int == wrap_i64(-(x as int)),
{
    proof {
        lemma_wrap_in_range(-(x as int));
    }
    if x == i64::MIN {
        x
    } else {
        -x
    }
}

/// The `mul` primitive, wrapping.
pub fn mul(par: &Vec<Token>) -> (r: Result<Token, Diag>)
    requires
        par@.len() == 2,
        token_models(*par)[0] is Value,
        token_models(*par)[1] is Value,
    ensures
        r is Ok,
        r->Ok_0.deep_view() == SpecToken::Value(
            wrap_i64(token_models(*par)[0]->Value_0 * token_models(*par)[1]->Value_0),
        ),
{
    proof {
        assert(token_models(*par)[0] == par[0].deep_view());
        assert(token_models(*par)[1] == par[1].deep_view());
    }
    match (&par[0], &par[1]) {
        (Token::Value(x), Token::Value(y)) => Ok(Token::Value(wrap_mul(*x, *y))),
        _ => unreached(),
    }
}

/// Truncating signed division, defined over the operand magnitudes.
pub open spec fn spec_trunc_div(a: int, b: int) -> int {
    let ma = if a < 0 { -a } else { a };
    let mb = if b < 0 { -b } else { b };
    if (a < 0) == (b < 0) {
        ma / mb
    } else {
        -(ma / mb)
    }
}

/// The remainder truncating division leaves: it carries the sign of the
/// dividend.
pub open spec fn spec_trunc_rem(a: int, b: int) -> int {
    let ma = if a < 0 { -a } else { a };
    let mb = if b < 0 { -b } else { b };
    if a < 0 {
        -(ma % mb)
    } else {
        ma % mb
    }
}

/// The `div` primitive: the second-nearest operand divided by the nearest
/// one, truncating toward zero; division by zero is an evaluation failure.
pub fn div(par: &Vec<Token>) -> (r: Result<Token, Diag>)
    requires
        par@.len() == 2,
        token_models(*par)[0] is Value,
        token_models(*par)[1] is Value,
    ensures
        r is Ok <==> token_models(*par)[0]->Value_0 != 0,
        token_models(*par)[0]->Value_0 != 0 ==> r->Ok_0.deep_view() == SpecToken::Value(
            wrap_i64(
                spec_trunc_div(token_models(*par)[1]->Value_0, token_models(*par)[0]->Value_0),
            ),
        ),
        r is Err ==> r->Err_0.deep_view().message == "Division by zero"@,
{
    proof {
        assert(token_models(*par)[0] == par[0].deep_view());
        assert(token_models(*par)[1] == par[1].deep_view());
    }
    match (&par[0], &par[1]) {
        (Token::Value(x), Token::Value(y)) => {
            if *x == 0 {
                Err(simple_diag("Division by zero", "The divisor of this call is zero."))
            } else {
                let my: u64 = magnitude(*y);
                let mx: u64 = magnitude(*x);
                let q: u64 = my / mx;
                let neg = (*x < 0) != (*y < 0);
                let result: i64;
                if neg {
                    if q > (i64::MAX as u64) + 1 {
                        proof {
                            assert(false) by (nonlinear_arith)
                                requires
                                    q == my / mx,
                                    mx >= 1,
                                    my <= 0x8000000000000000u64,
                                    q > 0x8000000000000000u64,
                            ;
                        }
                        result = 0;
                    } else if q == (i64::MAX as u64) + 1 {
                        result = i64::MIN;
                        proof {
                            lemma_wrap_in_range(-(q as int));
                        }
                    } else {
                        result = -(q as i64);
                        proof {
                            lemma_wrap_in_range(-(q as int));
                        }
                    }
                } else {
                    if q > i64::MAX as u64 {
                        // only reachable as i64::MIN / -1, which wraps back
                        // to i64::MIN
                        proof {
                            assert(q <= 0x8000000000000000u64) by (nonlinear_arith)
                                requires
                                    q == my / mx,
                                    mx >= 1,
                                    my <= 0x8000000000000000u64,
                            ;
                        }
                        result = i64::MIN;
                        proof {
                            lemma_wrap_unique(q as int, q as int - 0x10000000000000000, 1);
                        }
                    } else {
                        result = q as i64;
                        proof {
                            lemma_wrap_in_range(q as int);
                        }
                    }
                }
                Ok(Token::Value(result))
            }
        },
        _ => unreached(),
    }
}

/// The `mod` primitive: the remainder of truncating division; a zero
/// divisor is an evaluation failure.
pub fn modulo(par: &Vec<Token>) -> (r: Result<Token, Diag>)
    requires
        par@.len() == 2,
        token_models(*par)[0] is Value,
        token_models(*par)[1] is Value,
    ensures
        r is Ok <==> token_models(*par)[0]->Value_0 != 0,
        token_models(*par)[0]->Value_0 != 0 ==> r->Ok_0.deep_view() == SpecToken::Value(
            spec_trunc_rem(token_models(*par)[1]->Value_0, token_models(*par)[0]->Value_0),
        ),
        r is Err ==> r->Err_0.deep_view().message == "Division by zero"@,
{
    proof {
        assert(token_models(*par)[0] == par[0].deep_view());
        assert(token_models(*par)[1] == par[1].deep_view());
    }
    match (&par[0], &par[1]) {
        (Token::Value(x), Token::Value(y)) => {
            if *x == 0 {
                Err(simple_diag("Division by zero", "The divisor of this call is zero."))
            } else {
                let my: u64 = magnitude(*y);
                let mx: u64 = magnitude(*x);
                let rm: u64 = my % mx;
                proof {
                    assert(rm < mx) by (nonlinear_arith)
                        requires
                            rm == my % mx,
                            mx >= 1,
                    ;
                }
                if *y < 0 {
                    if rm == 0 {
                        Ok(Token::Value(0))
                    } else {
                        Ok(Token::Value(-(rm as i64)))
                    }
                } else {
                    Ok(Token::Value(rm as i64))
                }
            }
        },
        _ => unreached(),
    }
}


/// The `len` primitive: how many members an aggregate holds. A length
/// beyond the 64-bit signed range is clipped to the largest value.
pub fn len(par: &Vec<Token>) -> (r: Result<Token, Diag>)
    requires
        par@.len() == 1,
        token_models(*par)[0] is Group || token_models(*par)[0] is List,
    ensures
        r is Ok,
        token_models(*par)[0] matches SpecToken::Group(s) ==> r->Ok_0.deep_view()
            == SpecToken::Value(
            if s.len() <= i64::MAX {
                s.len() as int
            } else {
                i64::MAX as int
            },
        ),
        token_models(*par)[0] matches SpecToken::List(s) ==> r->Ok_0.deep_view()
            == SpecToken::Value(
            if s.len() <= i64::MAX {
                s.len() as int
            } else {
                i64::MAX as int
            },
        ),
{
    proof {
        assert(token_models(*par)[0] == par[0].deep_view());
    }
    let x = match &par[0] {
        Token::Group(x) => x,
        Token::List(x) => x,
        _ => return unreached(),
    };
    proof {
        assert(token_models(*x).len() == x@.len());
    }
    let n = x.len();
    if (n as u64) > (i64::MAX as u64) {
        Ok(Token::Value(i64::MAX))
    } else {
        Ok(Token::Value(n as i64))
    }
}

/// The `reverse` primitive: the aggregate with its members in reverse
/// order, keeping its kind.
pub fn reverse(par: &Vec<Token>) -> (r: Result<Token, Diag>)
    requires
        par@.len() == 1,
        token_models(*par)[0] is Group || token_models(*par)[0] is List,
    ensures
        r is Ok,
        token_models(*par)[0] matches SpecToken::Group(s) ==> r->Ok_0.deep_view()
            == SpecToken::Group(s.reverse()),
        token_models(*par)[0] matches SpecToken::List(s) ==> r->Ok_0.deep_view()
            == SpecToken::List(s.reverse()),
{
    proof {
        assert(token_models(*par)[0] == par[0].deep_view());
    }
    match &par[0] {
        Token::Group(x) => Ok(Token::Group(crate::utils::reverse_tokens(x))),
        Token::List(x) => Ok(Token::List(crate::utils::reverse_tokens(x))),
        _ => unreached(),
    }
}

/// The `OUTPUT` primitive: renders its operand, appends it to the program
/// output, and leaves no operand behind.
pub fn output(state: &mut State, par: &Vec<Token>) -> (r: Result<Token, Diag>)
    requires
        par@.len() == 1,
    ensures
        r is Ok && r->Ok_0.deep_view() == SpecToken::Void,
        final(state).env() == old(state).env(),
        final(state).wf() == old(state).wf(),
        final(state).output() =~= old(state).output().push(
            spec_convert(token_models(*par)[0]),
        ),
{
    proof {
        assert(token_models(*par)[0] == par[0].deep_view());
    }
    let line = convert(&par[0]);
    state.push_out(line);
    Ok(Token::Void)
}

/// Whether the equality primitive can compare two tokens: both must be of
/// the same variant, and of a variant that carries a comparable payload.
pub open spec fn spec_eq_comparable(a: SpecToken, b: SpecToken) -> bool {
    ||| (a is Value && b is Value)
    ||| (a is Function && b is Function)
    ||| (a is FunctionLiteral && b is FunctionLiteral)
    ||| (a is Container && b is Container)
    ||| (a is ContainerLiteral && b is ContainerLiteral)
    ||| (a is Atom && b is Atom)
    ||| (a is Parameter && b is Parameter)
}

/// Whether two comparable tokens are equal.
pub open spec fn spec_eq_holds(a: SpecToken, b: SpecToken) -> bool {
    match (a, b) {
        (SpecToken::Value(x), SpecToken::Value(y)) => x == y,
        (SpecToken::Function(x), SpecToken::Function(y)) => x == y,
        (SpecToken::FunctionLiteral(x), SpecToken::FunctionLiteral(y)) => x == y,
        (SpecToken::Container(x), SpecToken::Container(y)) => x == y,
        (SpecToken::ContainerLiteral(x), SpecToken::ContainerLiteral(y)) => x == y,
        (SpecToken::Atom(x), SpecToken::Atom(y)) => x == y,
        (SpecToken::Parameter(x), SpecToken::Parameter(y)) => x == y,
        _ => false,
    }
}

/// The `eq` primitive: the match value when two comparable operands are
/// equal, zero when they differ; operands of other kinds cannot be
/// compared and fail the call.
pub fn eq(par: &Vec<Token>) -> (r: Result<Token, Diag>)
    requires
        par@.len() == 2,
    ensures
        r is Ok <==> spec_eq_comparable(token_models(*par)[0], token_models(*par)[1]),
        r is Ok ==> r->Ok_0.deep_view() == SpecToken::Value(
            if spec_eq_holds(token_models(*par)[0], token_models(*par)[1]) {
                1int
            } else {
                0int
            },
        ),
        r is Err ==> r->Err_0.deep_view().message == "Incomparable Values"@,
{
    proof {
        assert(token_models(*par)[0] == par[0].deep_view());
        assert(token_models(*par)[1] == par[1].deep_view());
    }
    let equal: bool = match (&par[0], &par[1]) {
        (Token::Value(x), Token::Value(y)) => *x == *y,
        (Token::Function(x), Token::Function(y)) => word_eq(x.as_str(), y.as_str()),
        (Token::FunctionLiteral(x), Token::FunctionLiteral(y)) => word_eq(x.as_str(), y.as_str()),
        (Token::Container(x), Token::Container(y)) => word_eq(x.as_str(), y.as_str()),
        (Token::ContainerLiteral(x), Token::ContainerLiteral(y)) => word_eq(
            x.as_str(),
            y.as_str(),
        ),
        (Token::Atom(x), Token::Atom(y)) => word_eq(x.as_str(), y.as_str()),
        (Token::Parameter(x), Token::Parameter(y)) => *x == *y,
        _ => {
            return Err(
                simple_diag("Incomparable Values", "These operands cannot be compared."),
            );
        },
    };
    Ok(Token::Value(if equal { 1 } else { 0 }))
}

/// The `or` primitive: the match value when either operand is it.
pub fn or(par: &Vec<Token>) -> (r: Result<Token, Diag>)
    requires
        par@.len() == 2,
        token_models(*par)[0] is Value,
        token_models(*par)[1] is Value,
    ensures
        r is Ok,
        r->Ok_0.deep_view() == SpecToken::Value(
            if token_models(*par)[0]->Value_0 == 1 || token_models(*par)[1]->Value_0 == 1 {
                1int
            } else {
                0int
            },
        ),
{
    proof {
        assert(token_models(*par)[0] == par[0].deep_view());
        assert(token_models(*par)[1] == par[1].deep_view());
    }
    match (&par[0], &par[1]) {
        (Token::Value(x), Token::Value(y)) => Ok(
            Token::Value(if *x == 1 || *y == 1 { 1 } else { 0 }),
        ),
        _ => unreached(),
    }
}

/// The `and` primitive: the match value when both operands are it.
pub fn and(par: &Vec<Token>) -> (r: Result<Token, Diag>)
    requires
        par@.len() == 2,
        token_models(*par)[0] is Value,
        token_models(*par)[1] is Value,
    ensures
        r is Ok,
        r->Ok_0.deep_view() == SpecToken::Value(
            if token_models(*par)[0]->Value_0 == 1 && token_models(*par)[1]->Value_0 == 1 {
                1int
            } else {
                0int
            },
        ),
{
    proof {
        assert(token_models(*par)[0] == par[0].deep_view());
        assert(token_models(*par)[1] == par[1].deep_view());
    }
    match (&par[0], &par[1]) {
        (Token::Value(x), Token::Value(y)) => Ok(
            Token::Value(if *x == 1 && *y == 1 { 1 } else { 0 }),
        ),
        _ => unreached(),
    }
}

/// The `not` primitive: the match value exactly when the operand is zero.
pub fn not(par: &Vec<Token>) -> (r: Result<Token, Diag>)
    requires
        par@.len() == 1,
        token_models(*par)[0] is Value,
    ensures
        r is Ok,
        r->Ok_0.deep_view() == SpecToken::Value(
            if token_models(*par)[0]->Value_0 == 0 {
                1int
            } else {
                0int
            },
        ),
{
    proof {
        assert(token_models(*par)[0] == par[0].deep_view());
    }
    match &par[0] {
        Token::Value(x) => Ok(Token::Value(if *x == 0 { 1 } else { 0 })),
        _ => unreached(),
    }
}

/// The `greater` primitive: whether the nearest operand exceeds the other.
pub fn greater(par: &Vec<Token>) -> (r: Result<Token, Diag>)
    requires
        par@.len() == 2,
        token_models(*par)[0] is Value,
        token_models(*par)[1] is Value,
    ensures
        r is Ok,
        r->Ok_0.deep_view() == SpecToken::Value(
            if token_models(*par)[0]->Value_0 > token_models(*par)[1]->Value_0 {
                1int
            } else {
                0int
            },
        ),
{
    proof {
        assert(token_models(*par)[0] == par[0].deep_view());
        assert(token_models(*par)[1] == par[1].deep_view());
    }
    match (&par[0], &par[1]) {
        (Token::Value(x), Token::Value(y)) => Ok(Token::Value(if *x > *y { 1 } else { 0 })),
        _ => unreached(),
    }
}

/// The `less` primitive: whether the nearest operand is below the other.
pub fn less(par: &Vec<Token>) -> (r: Result<Token, Diag>)
    requires
        par@.len() == 2,
        token_models(*par)[0] is Value,
        token_models(*par)[1] is Value,
    ensures
        r is Ok,
        r->Ok_0.deep_view() == SpecToken::Value(
            if token_models(*par)[0]->Value_0 < token_models(*par)[1]->Value_0 {
                1int
            } else {
                0int
            },
        ),
{
    proof {
        assert(token_models(*par)[0] == par[0].deep_view());
        assert(token_models(*par)[1] == par[1].deep_view());
    }
    match (&par[0], &par[1]) {
        (Token::Value(x), Token::Value(y)) => Ok(Token::Value(if *x < *y { 1 } else { 0 })),
        _ => unreached(),
    }
}

/// The `axe` primitive: discards its operand and produces no value.
pub fn axe(par: &Vec<Token>) -> (r: Result<Token, Diag>)
    requires
        par@.len() == 1,
    ensures
        r is Ok && r->Ok_0.deep_view() == SpecToken::Void,
{
    Ok(Token::Void)
}

/// The `swap` primitive: keeps the operand nearest the call and discards
/// the other.
pub fn swap(par: &Vec<Token>) -> (r: Result<Token, Diag>)
    requires
        par@.len() == 2,
    ensures
        r is Ok && r->Ok_0.deep_view() == token_models(*par)[0],
{
    proof {
        assert(token_models(*par)[0] == par[0].deep_view());
    }
    Ok(par[0].duplicate())
}

/// The `call` primitive: turns an inert literal into its invocable form.
pub fn call(par: &Vec<Token>) -> (r: Result<Token, Diag>)
    requires
        par@.len() == 1,
        token_models(*par)[0] is Lambda || token_models(*par)[0] is FunctionLiteral
            || token_models(*par)[0] is ContainerLiteral,
    ensures
        r is Ok,
        token_models(*par)[0] matches SpecToken::ContainerLiteral(x) ==> r->Ok_0.deep_view()
            == SpecToken::Container(x),
        token_models(*par)[0] matches SpecToken::FunctionLiteral(x) ==> r->Ok_0.deep_view()
            == SpecToken::Function(x),
        token_models(*par)[0] matches SpecToken::Lambda(b) ==> r->Ok_0.deep_view()
            == SpecToken::ActiveLambda(b),
{
    proof {
        assert(token_models(*par)[0] == par[0].deep_view());
    }
    match &par[0] {
        Token::ContainerLiteral(x) => Ok(Token::Container(x.clone())),
        Token::FunctionLiteral(x) => Ok(Token::Function(x.clone())),
        Token::Lambda(b) => Ok(Token::ActiveLambda(duplicate_tokens(b))),
        _ => unreached(),
    }
}

/// The `head` primitive: an aggregate's first member, or the null value
/// when it is empty.
pub fn head(par: &Vec<Token>) -> (r: Result<Token, Diag>)
    requires
        par@.len() == 1,
        token_models(*par)[0] is Group || token_models(*par)[0] is List,
    ensures
        r is Ok,
        token_models(*par)[0] matches SpecToken::Group(s) ==> r->Ok_0.deep_view() == (if s.len()
            > 0 {
            s[0]
        } else {
            SpecToken::Null
        }),
        token_models(*par)[0] matches SpecToken::List(s) ==> r->Ok_0.deep_view() == (if s.len()
            > 0 {
            s[0]
        } else {
            SpecToken::Null
        }),
{
    proof {
        assert(token_models(*par)[0] == par[0].deep_view());
    }
    let x = match &par[0] {
        Token::Group(x) => x,
        Token::List(x) => x,
        _ => return unreached(),
    };
    proof {
        assert(token_models(*x).len() == x@.len());
        if x@.len() > 0 {
            assert(token_models(*x)[0] == x[0].deep_view());
        }
    }
    if x.len() > 0 {
        Ok(x[0].duplicate())
    } else {
        Ok(Token::Null)
    }
}

/// The `tail` primitive: the aggregate without its first member; an empty
/// aggregate has no tail and fails the call.
pub fn tail(par: &Vec<Token>) -> (r: Result<Token, Diag>)
    requires
        par@.len() == 1,
        token_models(*par)[0] is Group || token_models(*par)[0] is List,
    ensures
        r is Ok <==> (match token_models(*par)[0] {
            SpecToken::Group(s) => s.len() > 0,
            SpecToken::List(s) => s.len() > 0,
            _ => false,
        }),
        token_models(*par)[0] matches SpecToken::Group(s) ==> (s.len() > 0
            ==> r->Ok_0.deep_view() == SpecToken::Group(s.drop_first())),
        token_models(*par)[0] matches SpecToken::List(s) ==> (s.len() > 0
            ==> r->Ok_0.deep_view() == SpecToken::List(s.drop_first())),
        r is Err ==> r->Err_0.deep_view().message == "Empty Aggregate"@,
{
    proof {
        assert(token_models(*par)[0] == par[0].deep_view());
    }
    let group: bool = matches!(&par[0], Token::Group(_));
    let x = match &par[0] {
        Token::Group(x) => x,
        Token::List(x) => x,
        _ => return unreached(),
    };
    if x.len() == 0 {
        return Err(simple_diag("Empty Aggregate", "An empty aggregate has no tail."));
    }
    let ghost s = token_models(*x);
    let mut rest: Vec<Token> = Vec::new();
    let mut i: usize = 1;
    while i < x.len()
        invariant
            1 <= i <= x.len(),
            s == token_models(*x),
            s.len() == x.len(),
            rest@.len() == i - 1,
            forall|j: int| 0 <= j < i - 1 ==> (#[trigger] rest@[j].deep_view()) == s[j + 1],
        decreases x.len() - i,
    {
        rest.push(x[i].duplicate());
        i = i + 1;
    }
    proof {
        assert forall|j: int| 0 <= j < s.len() - 1 implies token_models(rest)[j]
            == s.drop_first()[j] by {
            assert(rest@[j].deep_view() == s[j + 1]);
        }
        assert(token_models(rest) =~= s.drop_first());
    }
    if group {
        Ok(Token::Group(rest))
    } else {
        Ok(Token::List(rest))
    }
}

/// The `iter` primitive: realizes an aggregate as a sequence for the
/// higher-order operations.
pub fn iter(par: &Vec<Token>) -> (r: Result<Token, Diag>)
    requires
        par@.len() == 1,
        token_models(*par)[0] is Group || token_models(*par)[0] is List,
    ensures
        r is Ok,
        token_models(*par)[0] matches SpecToken::Group(s) ==> r->Ok_0.deep_view()
            == SpecToken::Iterator(s),
        token_models(*par)[0] matches SpecToken::List(s) ==> r->Ok_0.deep_view()
            == SpecToken::Iterator(s),
{
    proof {
        assert(token_models(*par)[0] == par[0].deep_view());
    }
    match &par[0] {
        Token::Group(x) => Ok(Token::Iterator(duplicate_tokens(x))),
        Token::List(x) => Ok(Token::Iterator(duplicate_tokens(x))),
        _ => unreached(),
    }
}

/// The `collect_group` primitive: materializes a realized sequence as a
/// group.
pub fn collect_group(par: &Vec<Token>) -> (r: Result<Token, Diag>)
    requires
        par@.len() == 1,
        token_models(*par)[0] is Iterator,
    ensures
        r is Ok,
        token_models(*par)[0] matches SpecToken::Iterator(s) ==> r->Ok_0.deep_view()
            == SpecToken::Group(s),
{
    proof {
        assert(token_models(*par)[0] == par[0].deep_view());
    }
    match &par[0] {
        Token::Iterator(x) => Ok(Token::Group(duplicate_tokens(x))),
        _ => unreached(),
    }
}

/// The `collect_list` primitive: materializes a realized sequence as a
/// literal list.
pub fn collect_list(par: &Vec<Token>) -> (r: Result<Token, Diag>)
    requires
        par@.len() == 1,
        token_models(*par)[0] is Iterator,
    ensures
        r is Ok,
        token_models(*par)[0] matches SpecToken::Iterator(s) ==> r->Ok_0.deep_view()
            == SpecToken::List(s),
{
    proof {
        assert(token_models(*par)[0] == par[0].deep_view());
    }
    match &par[0] {
        Token::Iterator(x) => Ok(Token::List(duplicate_tokens(x))),
        _ => unreached(),
    }
}

/// The `lambda` primitive: freezes a literal list as an anonymous
/// procedure body.
pub fn lambda(par: &Vec<Token>) -> (r: Result<Token, Diag>)
    requires
        par@.len() == 1,
        token_models(*par)[0] is List,
    ensures
        r is Ok,
        token_models(*par)[0] matches SpecToken::List(s) ==> r->Ok_0.deep_view()
            == SpecToken::Lambda(s),
{
    proof {
        assert(token_models(*par)[0] == par[0].deep_view());
    }
    match &par[0] {
        Token::List(x) => Ok(Token::Lambda(duplicate_tokens(x))),
        _ => unreached(),
    }
}


/// A tag that a token satisfies pins the token's kind down: the registry's
/// tags are the concrete variant names and the two composite categories.
proof fn lemma_tag_cases(tag: Seq<char>, t: SpecToken)
    requires
        spec_matches_tag(tag, t),
    ensures
        tag == "Value"@ ==> t is Value,
        tag == "Iterator"@ ==> t is Iterator,
        tag == "List"@ ==> t is List,
        tag == "Iterable"@ ==> (t is Group || t is List),
        tag == "Literal"@ ==> (t is Lambda || t is FunctionLiteral || t is ContainerLiteral),
{
    reveal_strlit("Any");
    reveal_strlit("Iterable");
    reveal_strlit("Literal");
    reveal_strlit("Value");
    reveal_strlit("Function");
    reveal_strlit("FunctionLiteral");
    reveal_strlit("Container");
    reveal_strlit("ContainerLiteral");
    reveal_strlit("Lambda");
    reveal_strlit("ActiveLambda");
    reveal_strlit("Parameter");
    reveal_strlit("Atom");
    reveal_strlit("Char");
    reveal_strlit("Special");
    reveal_strlit("Group");
    reveal_strlit("List");
    reveal_strlit("Iterator");
    reveal_strlit("Null");
    reveal_strlit("Void");
    assert("Any"@.len() == 3 && "Iterable"@.len() == 8 && "Literal"@.len() == 7);
    assert("Value"@.len() == 5 && "Group"@.len() == 5);
    assert("Value"@[0] == 'V' && "Group"@[0] == 'G');
    assert("List"@.len() == 4 && "Atom"@.len() == 4 && "Char"@.len() == 4 && "Null"@.len() == 4
        && "Void"@.len() == 4);
    assert("List"@[0] == 'L' && "Atom"@[0] == 'A' && "Char"@[0] == 'C' && "Null"@[0] == 'N'
        && "Void"@[0] == 'V');
    assert("Iterator"@.len() == 8 && "Function"@.len() == 8);
    assert("Iterator"@[0] == 'I' && "Function"@[0] == 'F');
    assert("Iterator"@[5] == 't' && "Iterable"@[5] == 'b');
    assert("Lambda"@.len() == 6 && "Special"@.len() == 7 && "Container"@.len() == 9
        && "Parameter"@.len() == 9 && "ActiveLambda"@.len() == 12 && "FunctionLiteral"@.len()
        == 15 && "ContainerLiteral"@.len() == 16);
    assert("Literal"@[0] == 'L' && "Special"@[0] == 'S');
    assert("Container"@[0] == 'C' && "Parameter"@[0] == 'P');
}

/// What the pure primitives return, by registry name: `Some(Some(v))` when
/// the named call returns exactly `v`, `Some(None)` when it fails, `None`
/// for names whose result this function does not describe (the effectful
/// and higher-order primitives). The chain tests names in the order the
/// dispatcher does.
pub open spec fn spec_prim_result(name: Seq<char>, par: Seq<SpecToken>) -> Option<
    Option<SpecToken>,
> {
    if name == "type"@ {
        None
    } else if name == "sum"@ {
        match par[0] {
            SpecToken::Group(s) => if spec_all_values(s) {
                Some(Some(SpecToken::Value(wrap_i64(spec_sum_tokens(s)))))
            } else {
                Some(None)
            },
            SpecToken::List(s) => if spec_all_values(s) {
                Some(Some(SpecToken::Value(wrap_i64(spec_sum_tokens(s)))))
            } else {
                Some(None)
            },
            _ => None,
        }
    } else if name == "len"@ {
        match par[0] {
            SpecToken::Group(s) => Some(
                Some(
                    SpecToken::Value(
                        if s.len() <= i64::MAX {
                            s.len() as int
                        } else {
                            i64::MAX as int
                        },
                    ),
                ),
            ),
            SpecToken::List(s) => Some(
                Some(
                    SpecToken::Value(
                        if s.len() <= i64::MAX {
                            s.len() as int
                        } else {
                            i64::MAX as int
                        },
                    ),
                ),
            ),
            _ => None,
        }
    } else if name == "reverse"@ {
        match par[0] {
            SpecToken::Group(s) => Some(Some(SpecToken::Group(s.reverse()))),
            SpecToken::List(s) => Some(Some(SpecToken::List(s.reverse()))),
            _ => None,
        }
    } else if name == "iter"@ {
        match par[0] {
            SpecToken::Group(s) => Some(Some(SpecToken::Iterator(s))),
            SpecToken::List(s) => Some(Some(SpecToken::Iterator(s))),
            _ => None,
        }
    } else if name == "head"@ {
        match par[0] {
            SpecToken::Group(s) => Some(
                Some(
                    if s.len() > 0 {
                        s[0]
                    } else {
                        SpecToken::Null
                    },
                ),
            ),
            SpecToken::List(s) => Some(
                Some(
                    if s.len() > 0 {
                        s[0]
                    } else {
                        SpecToken::Null
                    },
                ),
            ),
            _ => None,
        }
    } else if name == "tail"@ {
        match par[0] {
            SpecToken::Group(s) => if s.len() > 0 {
                Some(Some(SpecToken::Group(s.drop_first())))
            } else {
                Some(None)
            },
            SpecToken::List(s) => if s.len() > 0 {
                Some(Some(SpecToken::List(s.drop_first())))
            } else {
                Some(None)
            },
            _ => None,
        }
    } else if name == "add"@ || name == "+"@ {
        Some(Some(SpecToken::Value(wrap_i64(par[0]->Value_0 + par[1]->Value_0))))
    } else if name == "sub"@ || name == "-"@ {
        Some(Some(SpecToken::Value(wrap_i64(par[1]->Value_0 - par[0]->Value_0))))
    } else if name == "mul"@ || name == "*"@ {
        Some(Some(SpecToken::Value(wrap_i64(par[0]->Value_0 * par[1]->Value_0))))
    } else if name == "div"@ || name == "/"@ {
        if par[0]->Value_0 == 0 {
            Some(None)
        } else {
            Some(
                Some(
                    SpecToken::Value(wrap_i64(spec_trunc_div(par[1]->Value_0, par[0]->Value_0))),
                ),
            )
        }
    } else if name == "mod"@ || name == "%"@ {
        if par[0]->Value_0 == 0 {
            Some(None)
        } else {
            Some(Some(SpecToken::Value(spec_trunc_rem(par[1]->Value_0, par[0]->Value_0))))
        }
    } else if name == "greater"@ {
        Some(
            Some(
                SpecToken::Value(
                    if par[0]->Value_0 > par[1]->Value_0 {
                        1int
                    } else {
                        0int
                    },
                ),
            ),
        )
    } else if name == "less"@ {
        Some(
            Some(
                SpecToken::Value(
                    if par[0]->Value_0 < par[1]->Value_0 {
                        1int
                    } else {
                        0int
                    },
                ),
            ),
        )
    } else if name == "or"@ {
        Some(
            Some(
                SpecToken::Value(
                    if par[0]->Value_0 == 1 || par[1]->Value_0 == 1 {
                        1int
                    } else {
                        0int
                    },
                ),
            ),
        )
    } else if name == "and"@ {
        Some(
            Some(
                SpecToken::Value(
                    if par[0]->Value_0 == 1 && par[1]->Value_0 == 1 {
                        1int
                    } else {
                        0int
                    },
                ),
            ),
        )
    } else if name == "not"@ {
        Some(
            Some(
                SpecToken::Value(
                    if par[0]->Value_0 == 0 {
                        1int
                    } else {
                        0int
                    },
                ),
            ),
        )
    } else if name == "OUTPUT"@ {
        None
    } else if name == "axe"@ {
        Some(Some(SpecToken::Void))
    } else if name == "="@ || name == "eq"@ {
        if spec_eq_comparable(par[0], par[1]) {
            Some(
                Some(
                    SpecToken::Value(
                        if spec_eq_holds(par[0], par[1]) {
                            1int
                        } else {
                            0int
                        },
                    ),
                ),
            )
        } else {
            Some(None)
        }
    } else if name == "swap"@ {
        Some(Some(par[0]))
    } else if name == "call"@ {
        match par[0] {
            SpecToken::ContainerLiteral(x) => Some(Some(SpecToken::Container(x))),
            SpecToken::FunctionLiteral(x) => Some(Some(SpecToken::Function(x))),
            SpecToken::Lambda(b) => Some(Some(SpecToken::ActiveLambda(b))),
            _ => None,
        }
    } else if name == "map"@ || name == "foldr"@ || name == "foldl"@ {
        None
    } else if name == "collect_group"@ {
        match par[0] {
            SpecToken::Iterator(s) => Some(Some(SpecToken::Group(s))),
            _ => None,
        }
    } else if name == "collect_list"@ {
        match par[0] {
            SpecToken::Iterator(s) => Some(Some(SpecToken::List(s))),
            _ => None,
        }
    } else if name == "lambda"@ {
        match par[0] {
            SpecToken::List(s) => Some(Some(SpecToken::Lambda(s))),
            _ => None,
        }
    } else {
        None
    }
}

/// The `map` primitive: reduces each member of a realized sequence under
/// the given procedure literal, gathering everything those reductions
/// produce, per `spec_map_loop`.
pub fn map(state: &mut State, par: &Vec<Token>, fuel: u64) -> (r: Result<Token, Diag>)
    requires
        old(state).wf(),
        par@.len() == 2,
        token_models(*par)[0] is Lambda || token_models(*par)[0] is FunctionLiteral
            || token_models(*par)[0] is ContainerLiteral,
        token_models(*par)[1] is Iterator,
    ensures
        final(state).wf(),
        final(state).env() == old(state).env(),
        old(state).output().is_prefix_of(final(state).output()),
        fuel == 0 ==> r is Err,
        token_models(*par)[1] matches SpecToken::Iterator(xs) ==> (fuel > 0 ==> (match
            spec_map_loop(
            old(state).env(),
            xs,
            spec_activate(token_models(*par)[0]),
            Seq::empty(),
            Seq::empty(),
            fuel as nat,
        ) {
            PrimOutcome::PrimDone(tok, more) => r is Ok && r->Ok_0.deep_view() == tok
                && final(state).output() =~= old(state).output() + more,
            PrimOutcome::PrimFailed => r is Err,
            PrimOutcome::PrimOutOfFuel => r is Err,
        })),
    decreases fuel, 0int,
{
    proof {
        assert(token_models(*par)[0] == par[0].deep_view());
        assert(token_models(*par)[1] == par[1].deep_view());
    }
    if fuel == 0 {
        return Err(
            simple_diag("Recursion Limit", "The evaluation budget of this statement is exhausted."),
        );
    }
    let mut cv: Vec<Token> = Vec::new();
    cv.push(par[0].duplicate());
    proof {
        assert(token_models(cv)[0] == cv@[0].deep_view());
    }
    let deref = match crate::stdlib::call(&cv) {
        Ok(t) => t,
        Err(e) => {
            return Err(e);
        },
    };
    let ghost fm = spec_activate(token_models(*par)[0]);
    proof {
        assert(deref.deep_view() == fm);
    }
    let elements = match &par[1] {
        Token::Iterator(x) => x,
        _ => {
            return unreached();
        },
    };
    let ghost xs = token_models(*elements);
    let ghost env0 = old(state).env();
    let mut result: Vec<Token> = Vec::new();
    let ghost mut delta: Seq<Seq<char>> = Seq::empty();
    let mut i: usize = 0;
    proof {
        assert(state.output() =~= old(state).output() + delta);
        assert(xs.skip(0) =~= xs);
        assert(xs.skip(0) == xs);
        assert(token_models(result) =~= Seq::<SpecToken>::empty());
        assert(token_models(result) == Seq::<SpecToken>::empty());
    }
    while i < elements.len()
        invariant
            state.wf(),
            state.env() == env0,
            env0 == old(state).env(),
            old(state).output().is_prefix_of(state.output()),
            state.output() == old(state).output() + delta,
            fuel >= 1,
            i <= elements@.len(),
            xs == token_models(*elements),
            xs.len() == elements@.len(),
            par@.len() == 2,
            token_models(*par)[1] == SpecToken::Iterator(xs),
            fm == spec_activate(token_models(*par)[0]),
            deref.deep_view() == fm,
            spec_map_loop(env0, xs, fm, Seq::empty(), Seq::empty(), fuel as nat)
                == spec_map_loop(
                env0,
                xs.skip(i as int),
                fm,
                token_models(result),
                delta,
                fuel as nat,
            ),
        decreases elements.len() - i,
    {
        let mut input: Vec<Token> = Vec::new();
        input.push(elements[i].duplicate());
        input.push(deref.duplicate());
        proof {
            assert(token_models(input)[0] == input@[0].deep_view());
            assert(token_models(input)[1] == input@[1].deep_view());
            assert(token_models(input) =~= seq![xs[i as int], fm]);
            assert(xs.skip(i as int)[0] == xs[i as int]);
            assert(crate::evaluator::spec_sub1(fuel as nat) == (fuel - 1) as nat);
        }
        let mut res = match state.eval(input, fuel - 1) {
            Ok(x) => x,
            Err(e) => {
                proof {
                    assert(xs.skip(i as int).len() > 0);
                    let po = crate::evaluator::spec_eval(env0, seq![xs[i as int], fm], (fuel
                        - 1) as nat);
                    assert(!(po is Done));
                    let ro = spec_map_loop(
                        env0,
                        xs.skip(i as int),
                        fm,
                        token_models(result),
                        delta,
                        fuel as nat,
                    );
                    assert(ro is PrimFailed || ro is PrimOutOfFuel);
                }
                return Err(e);
            },
        };
        proof {
            let stepped = crate::evaluator::spec_eval(env0, seq![xs[i as int], fm], (fuel
                - 1) as nat);
            assert(stepped matches crate::evaluator::Reduction::Done(a, b2) && a
                == token_models(res));
            let more = stepped->Done_1;
            assert(state.output() =~= old(state).output() + (delta + more));
            delta = delta + more;
            assert(state.output() == old(state).output() + delta);
        }
        let ghost before = token_models(result);
        result.append(&mut res);
        proof {
            assert(token_models(result) =~= before + crate::evaluator::spec_eval(
                env0,
                seq![xs[i as int], fm],
                (fuel - 1) as nat,
            )->Done_0);
            assert(xs.skip(i as int).drop_first() =~= xs.skip(i + 1 as int));
        }
        i = i + 1;
    }
    proof {
        assert(xs.skip(xs.len() as int) =~= Seq::<SpecToken>::empty());
        assert(spec_map_loop(
            env0,
            xs.skip(xs.len() as int),
            fm,
            token_models(result),
            delta,
            fuel as nat,
        ) == PrimOutcome::PrimDone(SpecToken::Iterator(token_models(result)), delta));
        assert(state.output() =~= old(state).output() + delta);
    }
    Ok(Token::Iterator(result))
}

/// The `foldr` primitive: folds a realized sequence into the seed, feeding
/// the accumulator, one member and the procedure back through the
/// evaluator for every member, per `spec_fold_loop`.
pub fn foldr(state: &mut State, par: &Vec<Token>, fuel: u64) -> (r: Result<Token, Diag>)
    requires
        old(state).wf(),
        par@.len() == 3,
        token_models(*par)[1] is Lambda || token_models(*par)[1] is FunctionLiteral
            || token_models(*par)[1] is ContainerLiteral,
        token_models(*par)[2] is Iterator,
    ensures
        final(state).wf(),
        final(state).env() == old(state).env(),
        old(state).output().is_prefix_of(final(state).output()),
        fuel == 0 ==> r is Err,
        token_models(*par)[2] matches SpecToken::Iterator(xs) ==> (fuel > 0 ==> (match
            spec_fold_loop(
            old(state).env(),
            xs,
            spec_activate(token_models(*par)[1]),
            token_models(*par)[0],
            Seq::empty(),
            fuel as nat,
        ) {
            PrimOutcome::PrimDone(tok, more) => r is Ok && r->Ok_0.deep_view() == tok
                && final(state).output() =~= old(state).output() + more,
            PrimOutcome::PrimFailed => r is Err,
            PrimOutcome::PrimOutOfFuel => r is Err,
        })),
    decreases fuel, 0int,
{
    proof {
        assert(token_models(*par)[0] == par[0].deep_view());
        assert(token_models(*par)[1] == par[1].deep_view());
        assert(token_models(*par)[2] == par[2].deep_view());
    }
    if fuel == 0 {
        return Err(
            simple_diag("Recursion Limit", "The evaluation budget of this statement is exhausted."),
        );
    }
    let mut cv: Vec<Token> = Vec::new();
    cv.push(par[1].duplicate());
    proof {
        assert(token_models(cv)[0] == cv@[0].deep_view());
    }
    let func = match crate::stdlib::call(&cv) {
        Ok(t) => t,
        Err(e) => {
            return Err(e);
        },
    };
    let ghost fm = spec_activate(token_models(*par)[1]);
    proof {
        assert(func.deep_view() == fm);
    }
    let arr = match &par[2] {
        Token::Iterator(x) => x,
        _ => {
            return unreached();
        },
    };
    let ghost xs = token_models(*arr);
    let ghost env0 = old(state).env();
    let mut acc = par[0].duplicate();
    let ghost mut delta: Seq<Seq<char>> = Seq::empty();
    let mut i: usize = 0;
    proof {
        assert(state.output() =~= old(state).output() + delta);
        assert(xs.skip(0) =~= xs);
        assert(xs.skip(0) == xs);
    }
    while i < arr.len()
        invariant
            state.wf(),
            state.env() == env0,
            env0 == old(state).env(),
            old(state).output().is_prefix_of(state.output()),
            state.output() == old(state).output() + delta,
            fuel >= 1,
            i <= arr@.len(),
            xs == token_models(*arr),
            xs.len() == arr@.len(),
            par@.len() == 3,
            token_models(*par)[2] == SpecToken::Iterator(xs),
            fm == spec_activate(token_models(*par)[1]),
            func.deep_view() == fm,
            spec_fold_loop(env0, xs, fm, token_models(*par)[0], Seq::empty(), fuel as nat)
                == spec_fold_loop(
                env0,
                xs.skip(i as int),
                fm,
                acc.deep_view(),
                delta,
                fuel as nat,
            ),
        decreases arr.len() - i,
    {
        let ghost accm = acc.deep_view();
        let mut input: Vec<Token> = Vec::new();
        input.push(acc);
        input.push(arr[i].duplicate());
        input.push(func.duplicate());
        proof {
            assert(token_models(input)[0] == input@[0].deep_view());
            assert(token_models(input)[1] == input@[1].deep_view());
            assert(token_models(input)[2] == input@[2].deep_view());
            assert(token_models(input) =~= seq![accm, xs[i as int], fm]);
            assert(xs.skip(i as int)[0] == xs[i as int]);
            assert(crate::evaluator::spec_sub1(fuel as nat) == (fuel - 1) as nat);
        }
        let mut res = match state.eval(input, fuel - 1) {
            Ok(x) => x,
            Err(e) => {
                proof {
                    assert(xs.skip(i as int).len() > 0);
                    let po = crate::evaluator::spec_eval(
                        env0,
                        seq![accm, xs[i as int], fm],
                        (fuel - 1) as nat,
                    );
                    assert(!(po is Done));
                    let ro = spec_fold_loop(
                        env0,
                        xs.skip(i as int),
                        fm,
                        accm,
                        delta,
                        fuel as nat,
                    );
                    assert(ro is PrimFailed || ro is PrimOutOfFuel);
                }
                return Err(e);
            },
        };
        proof {
            let stepped = crate::evaluator::spec_eval(env0, seq![accm, xs[i as int], fm], (
            fuel - 1) as nat);
            assert(stepped matches crate::evaluator::Reduction::Done(a, b2) && a
                == token_models(res));
            let more = stepped->Done_1;
            assert(state.output() =~= old(state).output() + (delta + more));
            delta = delta + more;
            assert(state.output() == old(state).output() + delta);
        }
        if res.len() == 0 {
            proof {
                assert(xs.skip(i as int).len() > 0);
                assert(token_models(res).len() == 0);
                let ro = spec_fold_loop(env0, xs.skip(i as int), fm, accm, delta, fuel as nat);
                assert(ro is PrimFailed);
            }
            return Err(
                simple_diag("Empty Evaluation", "A fold step reduced to no value at all."),
            );
        }
        proof {
            assert(token_models(res).len() > 0);
            assert(token_models(res)[0] == res@[0].deep_view());
        }
        acc = res.remove(0);
        proof {
            assert(xs.skip(i as int).drop_first() =~= xs.skip(i + 1 as int));
        }
        i = i + 1;
    }
    proof {
        assert(xs.skip(xs.len() as int) =~= Seq::<SpecToken>::empty());
        assert(spec_fold_loop(
            env0,
            xs.skip(xs.len() as int),
            fm,
            acc.deep_view(),
            delta,
            fuel as nat,
        ) == PrimOutcome::PrimDone(acc.deep_view(), delta));
        assert(state.output() =~= old(state).output() + delta);
    }
    Ok(acc)
}

/// The `foldl` primitive: the same fold taken from the other end of the
/// sequence.
pub fn foldl(state: &mut State, par: &Vec<Token>, fuel: u64) -> (r: Result<Token, Diag>)
    requires
        old(state).wf(),
        par@.len() == 3,
        token_models(*par)[1] is Lambda || token_models(*par)[1] is FunctionLiteral
            || token_models(*par)[1] is ContainerLiteral,
        token_models(*par)[2] is Iterator,
    ensures
        final(state).wf(),
        final(state).env() == old(state).env(),
        old(state).output().is_prefix_of(final(state).output()),
        fuel == 0 ==> r is Err,
        token_models(*par)[2] matches SpecToken::Iterator(xs) ==> (fuel > 0 ==> (match
            spec_fold_loop(
            old(state).env(),
            xs.reverse(),
            spec_activate(token_models(*par)[1]),
            token_models(*par)[0],
            Seq::empty(),
            fuel as nat,
        ) {
            PrimOutcome::PrimDone(tok, more) => r is Ok && r->Ok_0.deep_view() == tok
                && final(state).output() =~= old(state).output() + more,
            PrimOutcome::PrimFailed => r is Err,
            PrimOutcome::PrimOutOfFuel => r is Err,
        })),
    decreases fuel, 1int,
{
    proof {
        assert(token_models(*par)[2] == par[2].deep_view());
    }
    let reversed = match &par[2] {
        Token::Iterator(x) => crate::utils::reverse_tokens(x),
        _ => {
            return unreached();
        },
    };
    let mut par2: Vec<Token> = Vec::new();
    par2.push(par[0].duplicate());
    par2.push(par[1].duplicate());
    par2.push(Token::Iterator(reversed));
    proof {
        assert(token_models(par2)[0] == par2@[0].deep_view());
        assert(token_models(par2)[1] == par2@[1].deep_view());
        assert(token_models(par2)[2] == par2@[2].deep_view());
        assert(token_models(*par)[1] == par[1].deep_view());
        assert(token_models(*par)[0] == par[0].deep_view());
    }
    crate::stdlib::foldr(state, &par2, fuel)
}

/// The registry's calling step: dispatches a primitive by name on the
/// already extracted, already type-checked operands. The pure primitives
/// return what `spec_prim_result` says; `type` returns the operand's
/// encoded tag; `OUTPUT` appends one rendered line to the program output;
/// the higher-order primitives re-enter the evaluator on what is left of
/// the step budget.
pub fn call_function(state: &mut State, name: &str, par: Vec<Token>, fuel: u64) -> (r: Result<
    Token,
    Diag,
>)
    requires
        old(state).wf(),
        spec_signature(name@) is Some,
        par@.len() == spec_signature(name@)->Some_0.len(),
        forall|i: int|
            0 <= i < par@.len() ==> spec_matches_tag(
                spec_signature(name@)->Some_0[i],
                token_models(par)[i],
            ),
    ensures
        final(state).wf(),
        final(state).env() == old(state).env(),
        old(state).output().is_prefix_of(final(state).output()),
        match spec_call(old(state).env(), name@, token_models(par), fuel as nat) {
            PrimOutcome::PrimDone(tok, more) => r is Ok && r->Ok_0.deep_view() == tok
                && final(state).output() =~= old(state).output() + more,
            PrimOutcome::PrimFailed => r is Err,
            PrimOutcome::PrimOutOfFuel => r is Err,
        },
        spec_prim_result(name@, token_models(par)) matches Some(out) ==> (match out {
            Some(v) => r is Ok && r->Ok_0.deep_view() == v,
            None => r is Err,
        }),
        name@ == "type"@ ==> r is Ok && spec_as_string(r->Ok_0.deep_view()) == Some(
            spec_type_of(token_models(par)[0]),
        ),
        name@ == "OUTPUT"@ ==> r is Ok && r->Ok_0.deep_view() == SpecToken::Void
            && final(state).output() == old(state).output().push(
            spec_convert(token_models(par)[0]),
        ),
        final(state).output() == old(state).output() || (name@ == "OUTPUT"@ || name@ == "map"@
            || name@ == "foldr"@ || name@ == "foldl"@),
    decreases fuel, 2int,
{
    let ghost pm = token_models(par);
    proof {
        reveal_strlit("type");
        reveal_strlit("sum");
        reveal_strlit("len");
        reveal_strlit("reverse");
        reveal_strlit("iter");
        reveal_strlit("head");
        reveal_strlit("tail");
        reveal_strlit("add");
        reveal_strlit("sub");
        reveal_strlit("mul");
        reveal_strlit("div");
        reveal_strlit("mod");
        reveal_strlit("+");
        reveal_strlit("-");
        reveal_strlit("*");
        reveal_strlit("/");
        reveal_strlit("%");
        reveal_strlit("greater");
        reveal_strlit("less");
        reveal_strlit("or");
        reveal_strlit("and");
        reveal_strlit("not");
        reveal_strlit("OUTPUT");
        reveal_strlit("axe");
        reveal_strlit("=");
        reveal_strlit("eq");
        reveal_strlit("swap");
        reveal_strlit("call");
        reveal_strlit("map");
        reveal_strlit("foldr");
        reveal_strlit("foldl");
        reveal_strlit("collect_group");
        reveal_strlit("collect_list");
        reveal_strlit("lambda");
        assert("type"@.len() == 4 && "iter"@.len() == 4 && "head"@.len() == 4 && "tail"@.len()
            == 4 && "less"@.len() == 4 && "swap"@.len() == 4 && "call"@.len() == 4);
        assert("type"@[0] == 't' && "iter"@[0] == 'i' && "head"@[0] == 'h' && "tail"@[0] == 't'
            && "less"@[0] == 'l' && "swap"@[0] == 's' && "call"@[0] == 'c');
        assert("type"@[1] == 'y' && "tail"@[1] == 'a');
        assert("sum"@.len() == 3 && "len"@.len() == 3 && "add"@.len() == 3 && "sub"@.len() == 3
            && "mul"@.len() == 3 && "div"@.len() == 3 && "mod"@.len() == 3 && "and"@.len() == 3
            && "not"@.len() == 3 && "axe"@.len() == 3 && "map"@.len() == 3);
        assert("sum"@[0] == 's' && "len"@[0] == 'l' && "add"@[0] == 'a' && "sub"@[0] == 's'
            && "mul"@[0] == 'm' && "div"@[0] == 'd' && "mod"@[0] == 'm' && "and"@[0] == 'a'
            && "not"@[0] == 'n' && "axe"@[0] == 'a' && "map"@[0] == 'm');
        assert("sum"@[1] == 'u' && "sub"@[1] == 'u' && "sum"@[2] == 'm' && "sub"@[2] == 'b');
        assert("add"@[1] == 'd' && "and"@[1] == 'n' && "axe"@[1] == 'x');
        assert("mul"@[1] == 'u' && "mod"@[1] == 'o' && "map"@[1] == 'a');
        assert("reverse"@.len() == 7 && "greater"@.len() == 7);
        assert("reverse"@[0] == 'r' && "greater"@[0] == 'g');
        assert("+"@.len() == 1 && "-"@.len() == 1 && "*"@.len() == 1 && "/"@.len() == 1
            && "%"@.len() == 1 && "="@.len() == 1);
        assert("+"@[0] == '+' && "-"@[0] == '-' && "*"@[0] == '*' && "/"@[0] == '/' && "%"@[0]
            == '%' && "="@[0] == '=');
        assert("or"@.len() == 2 && "eq"@.len() == 2);
        assert("or"@[0] == 'o' && "eq"@[0] == 'e');
        assert("OUTPUT"@.len() == 6 && "lambda"@.len() == 6);
        assert("OUTPUT"@[0] == 'O' && "lambda"@[0] == 'l');
        assert("foldr"@.len() == 5 && "foldl"@.len() == 5);
        assert("foldr"@[4] == 'r' && "foldl"@[4] == 'l');
        assert("collect_group"@.len() == 13 && "collect_list"@.len() == 12);
        assert forall|i: int| 0 <= i < par@.len() implies pm[i] == par@[i].deep_view() by {}
        if par@.len() >= 1 {
            lemma_tag_cases(spec_signature(name@)->Some_0[0], pm[0]);
        }
        if par@.len() >= 2 {
            lemma_tag_cases(spec_signature(name@)->Some_0[1], pm[1]);
        }
        if par@.len() >= 3 {
            lemma_tag_cases(spec_signature(name@)->Some_0[2], pm[2]);
        }
    }
    if word_eq(name, "type") {
        crate::stdlib::type_of_container(&par)
    } else if word_eq(name, "sum") {
        crate::stdlib::sum(&par)
    } else if word_eq(name, "len") {
        crate::stdlib::len(&par)
    } else if word_eq(name, "reverse") {
        crate::stdlib::reverse(&par)
    } else if word_eq(name, "iter") {
        crate::stdlib::iter(&par)
    } else if word_eq(name, "head") {
        crate::stdlib::head(&par)
    } else if word_eq(name, "tail") {
        crate::stdlib::tail(&par)
    } else if word_eq(name, "add") || word_eq(name, "+") {
        crate::stdlib::add(&par)
    } else if word_eq(name, "sub") || word_eq(name, "-") {
        crate::stdlib::sub(&par)
    } else if word_eq(name, "mul") || word_eq(name, "*") {
        crate::stdlib::mul(&par)
    } else if word_eq(name, "div") || word_eq(name, "/") {
        crate::stdlib::div(&par)
    } else if word_eq(name, "mod") || word_eq(name, "%") {
        crate::stdlib::modulo(&par)
    } else if word_eq(name, "greater") {
        crate::stdlib::greater(&par)
    } else if word_eq(name, "less") {
        crate::stdlib::less(&par)
    } else if word_eq(name, "or") {
        crate::stdlib::or(&par)
    } else if word_eq(name, "and") {
        crate::stdlib::and(&par)
    } else if word_eq(name, "not") {
        crate::stdlib::not(&par)
    } else if word_eq(name, "OUTPUT") {
        crate::stdlib::output(state, &par)
    } else if word_eq(name, "axe") {
        crate::stdlib::axe(&par)
    } else if word_eq(name, "=") || word_eq(name, "eq") {
        crate::stdlib::eq(&par)
    } else if word_eq(name, "swap") {
        crate::stdlib::swap(&par)
    } else if word_eq(name, "call") {
        crate::stdlib::call(&par)
    } else if word_eq(name, "map") {
        crate::stdlib::map(state, &par, fuel)
    } else if word_eq(name, "foldr") {
        crate::stdlib::foldr(state, &par, fuel)
    } else if word_eq(name, "foldl") {
        crate::stdlib::foldl(state, &par, fuel)
    } else if word_eq(name, "collect_group") {
        crate::stdlib::collect_group(&par)
    } else if word_eq(name, "collect_list") {
        crate::stdlib::collect_list(&par)
    } else if word_eq(name, "lambda") {
        crate::stdlib::lambda(&par)
    } else {
        proof {
            assert(false);
        }
        unreached()
    }
}

} // verus!
