//! Shared plumbing over token sequences: deep copies, rendering to source
//! text, type tags, operand extraction and selector substitution.

#![allow(unused_imports)]
use vstd::prelude::*;

use crate::diagnostics::{simple_diag, Diag, Label, Severity, Span};
use crate::State;
use crate::{token_models, Range, SpecToken, Token, Tokens};
use vstd::string::{StrSliceExecFns, StringExecFns};

verus! {

broadcast use vstd::std_specs::vec::group_vec_axioms, vstd::seq::group_seq_axioms;

impl Token {
    /// A structural deep copy; the model of the copy is the model of the
    /// original. This stands in for `Clone`, whose derived implementation
    /// carries no specification.
    pub fn duplicate(&self) -> (r: Token)
        ensures
            r.deep_view() == self.deep_view(),
        decreases self,
    {
        match self {
            Token::Value(n) => Token::Value(*n),
            Token::Function(s) => Token::Function(s.clone()),
            Token::FunctionLiteral(s) => Token::FunctionLiteral(s.clone()),
            Token::Container(s) => Token::Container(s.clone()),
            Token::ContainerLiteral(s) => Token::ContainerLiteral(s.clone()),
            Token::Lambda(v) => Token::Lambda(duplicate_tokens(v)),
            Token::ActiveLambda(v) => Token::ActiveLambda(duplicate_tokens(v)),
            Token::Parameter(r) => Token::Parameter(*r),
            Token::Atom(s) => Token::Atom(s.clone()),
            Token::Char(c) => Token::Char(*c),
            Token::Special(s) => Token::Special(s.clone()),
            Token::Group(v) => Token::Group(duplicate_tokens(v)),
            Token::List(v) => Token::List(duplicate_tokens(v)),
            Token::Iterator(v) => Token::Iterator(duplicate_tokens(v)),
            Token::Null => Token::Null,
            Token::Void => Token::Void,
        }
    }
}

/// Deep copy of a token vector, element by element.
pub fn duplicate_tokens(v: &Vec<Token>) -> (r: Vec<Token>)
    ensures
        token_models(r) == token_models(*v),
    decreases *v,
{
    let mut out: Vec<Token> = Vec::new();
    let mut i: usize = 0;
    while i < v.len()
        invariant
            i <= v.len(),
            out@.len() == i,
            forall|j: int| 0 <= j < i ==> out[j].deep_view() == v[j].deep_view(),
        decreases v.len() - i,
    {
        out.push(v[i].duplicate());
        i = i + 1;
    }
    proof {
        assert(token_models(out) =~= token_models(*v));
    }
    out
}

/// Exact string comparison, specified over the character sequences.
pub fn word_eq(a: &str, b: &str) -> (r: bool)
    ensures
        r == (a@ == b@),
{
    let x = a.to_owned();
    let y = b.to_owned();
    x == y
}

/// Relies on `String::push`: appends exactly one character to the string.
#[verifier::external_body]
pub fn push_char(s: &mut String, c: char) -> (u: ())
    ensures
        final(s)@ == old(s)@.push(c),
{
    s.push(c);
}

/// The decimal digit for `d`.
pub open spec fn spec_digit(d: int) -> char {
    if d == 0 { '0' }
    else if d == 1 { '1' }
    else if d == 2 { '2' }
    else if d == 3 { '3' }
    else if d == 4 { '4' }
    else if d == 5 { '5' }
    else if d == 6 { '6' }
    else if d == 7 { '7' }
    else if d == 8 { '8' }
    else { '9' }
}

/// Decimal rendering of a non-negative integer, most significant digit first.
pub open spec fn spec_nat_string(n: int) -> Seq<char>
    decreases n,
{
    if n < 10 {
        seq![spec_digit(n)]
    } else {
        spec_nat_string(n / 10).push(spec_digit(n % 10))
    }
}

/// Decimal rendering of a number token's value, with a leading `-` when
/// negative.
pub open spec fn spec_value_string(n: int) -> Seq<char> {
    if n < 0 {
        seq!['-'] + spec_nat_string(-n)
    } else {
        spec_nat_string(n)
    }
}

fn digit_char(d: u64) -> (c: char)
    requires
        d < 10,
    ensures
        c == spec_digit(d as int),
{
    match d {
        0 => '0',
        1 => '1',
        2 => '2',
        3 => '3',
        4 => '4',
        5 => '5',
        6 => '6',
        7 => '7',
        8 => '8',
        _ => '9',
    }
}

fn nat_digits(m: u64) -> (r: Vec<char>)
    ensures
        r@ == spec_nat_string(m as int),
    decreases m,
{
    if m < 10 {
        let mut v: Vec<char> = Vec::new();
        v.push(digit_char(m));
        proof {
            assert(v@ =~= spec_nat_string(m as int));
        }
        v
    } else {
        let mut v = nat_digits(m / 10);
        v.push(digit_char(m % 10));
        proof {
            assert(v@ =~= spec_nat_string(m as int));
        }
        v
    }
}

/// Renders a number the way the interpreter prints it.
pub fn value_string(n: i64) -> (r: String)
    ensures
        r@ == spec_value_string(n as int),
{
    let mut s = String::new();
    let m: u64;
    if n < 0 {
        push_char(&mut s, '-');
        m = ((-(n + 1)) as u64) + 1;
        proof {
            assert(m as int == -(n as int));
        }
    } else {
        m = n as u64;
    }
    let digits = nat_digits(m);
    let mut i: usize = 0;
    let ghost base = s@;
    while i < digits.len()
        invariant
            i <= digits.len(),
            s@ == base + digits@.subrange(0, i as int),
        decreases digits.len() - i,
    {
        push_char(&mut s, digits[i]);
        proof {
            assert(base + digits@.subrange(0, i as int) + seq![digits@[i as int]] =~= base
                + digits@.subrange(0, i + 1 as int));
        }
        i = i + 1;
    }
    proof {
        assert(digits@.subrange(0, digits@.len() as int) =~= digits@);
        assert(s@ =~= spec_value_string(n as int));
    }
    s
}

/// The runtime type tag of a token: its variant name.
pub open spec fn spec_type_of(t: SpecToken) -> Seq<char> {
    match t {
        SpecToken::Value(_) => "Value"@,
        SpecToken::Function(_) => "Function"@,
        SpecToken::FunctionLiteral(_) => "FunctionLiteral"@,
        SpecToken::Container(_) => "Container"@,
        SpecToken::ContainerLiteral(_) => "ContainerLiteral"@,
        SpecToken::Lambda(_) => "Lambda"@,
        SpecToken::ActiveLambda(_) => "ActiveLambda"@,
        SpecToken::Parameter(_) => "Parameter"@,
        SpecToken::Atom(_) => "Atom"@,
        SpecToken::Char(_) => "Char"@,
        SpecToken::Special(_) => "Special"@,
        SpecToken::Group(_) => "Group"@,
        SpecToken::List(_) => "List"@,
        SpecToken::Iterator(_) => "Iterator"@,
        SpecToken::Null => "Null"@,
        SpecToken::Void => "Void"@,
    }
}

/// The runtime type tag of a token. The tag is the variant name, and is what
/// diagnostics and the `type` primitive report.
pub fn type_of(token: &Token) -> (r: String)
    ensures
        r@ == spec_type_of(token.deep_view()),
{
    match token {
        Token::Value(_) => String::from_str("Value"),
        Token::Function(_) => String::from_str("Function"),
        Token::FunctionLiteral(_) => String::from_str("FunctionLiteral"),
        Token::Container(_) => String::from_str("Container"),
        Token::ContainerLiteral(_) => String::from_str("ContainerLiteral"),
        Token::Lambda(_) => String::from_str("Lambda"),
        Token::ActiveLambda(_) => String::from_str("ActiveLambda"),
        Token::Parameter(_) => String::from_str("Parameter"),
        Token::Atom(_) => String::from_str("Atom"),
        Token::Char(_) => String::from_str("Char"),
        Token::Special(_) => String::from_str("Special"),
        Token::Group(_) => String::from_str("Group"),
        Token::List(_) => String::from_str("List"),
        Token::Iterator(_) => String::from_str("Iterator"),
        Token::Null => String::from_str("Null"),
        Token::Void => String::from_str("Void"),
    }
}

/// Whether every token of the sequence is a character token.
pub open spec fn spec_all_chars(s: Seq<SpecToken>) -> bool {
    forall|i: int| 0 <= i < s.len() ==> s[i] is Char
}

/// The characters of a sequence of character tokens.
pub open spec fn spec_chars_of(s: Seq<SpecToken>) -> Seq<char> {
    Seq::new(
        s.len(),
        |i: int|
            if 0 <= i < s.len() {
                match s[i] {
                    SpecToken::Char(c) => c,
                    _ => ' ',
                }
            } else {
                ' '
            },
    )
}

/// A group whose members are all character tokens is a string; its text.
pub open spec fn spec_as_string(t: SpecToken) -> Option<Seq<char>> {
    match t {
        SpecToken::Group(s) => if spec_all_chars(s) {
            Some(spec_chars_of(s))
        } else {
            None
        },
        _ => None,
    }
}

impl Token {
    /// The text of a group of character tokens, the representation the
    /// interpreter uses for strings; `None` for anything else.
    pub fn is_string(&self) -> (r: Option<String>)
        ensures
            match r {
                Some(s) => spec_as_string(self.deep_view()) == Some(s@),
                None => spec_as_string(self.deep_view()) is None,
            },
    {
        match self {
            Token::Group(contents) => {
                let ghost m = token_models(*contents);
                let mut result = String::new();
                let mut i: usize = 0;
                while i < contents.len()
                    invariant
                        i <= contents.len(),
                        m == token_models(*contents),
                        m.len() == contents.len(),
                        self.deep_view() == SpecToken::Group(m),
                        forall|j: int| 0 <= j < i ==> m[j] is Char,
                        result@ =~= spec_chars_of(m).subrange(0, i as int),
                    decreases contents.len() - i,
                {
                    match &contents[i] {
                        Token::Char(y) => {
                            push_char(&mut result, *y);
                        },
                        other => {
                            proof {
                                assert(m[i as int] == contents[i as int].deep_view());
                                assert(!(m[i as int] is Char));
                                assert(!spec_all_chars(m));
                            }
                            return None;
                        },
                    }
                    i = i + 1;
                }
                proof {
                    assert(spec_chars_of(m).subrange(0, m.len() as int) =~= spec_chars_of(m));
                }
                Some(result)
            },
            _ => None,
        }
    }
}

/// The rendered source text of one token.
pub open spec fn spec_convert(t: SpecToken) -> Seq<char>
    decreases t,
{
    match t {
        SpecToken::Value(n) => spec_value_string(n),
        SpecToken::Atom(x) => ":"@ + x,
        SpecToken::Special(x) => x,
        SpecToken::Container(x) => x,
        SpecToken::Function(x) => x,
        SpecToken::Group(contents) => if spec_all_chars(contents) {
            spec_chars_of(contents)
        } else {
            "{"@ + spec_literal(contents) + "}"@
        },
        SpecToken::List(contents) => "["@ + spec_literal(contents) + "]"@,
        SpecToken::FunctionLiteral(x) => "`"@ + x + "`"@,
        SpecToken::ContainerLiteral(x) => "`"@ + x + "`"@,
        SpecToken::Lambda(contents) => "Lambda("@ + spec_literal(contents) + ")"@,
        SpecToken::ActiveLambda(contents) => "ActiveLambda("@ + spec_literal(contents) + ")"@,
        SpecToken::Parameter(r) => "$"@ + spec_range_string(r),
        SpecToken::Char(c) => "'"@ + seq![c] + "'"@,
        SpecToken::Iterator(contents) => "Iterator("@ + spec_literal(contents) + ")"@,
        SpecToken::Null => "Null"@,
        SpecToken::Void => "Void"@,
    }
}

/// The rendered text of a selector: `$a`, `$a..b`, `$a..` or `$..b`.
pub open spec fn spec_range_string(r: Range) -> Seq<char> {
    match r {
        Range::Full { start, end } => if start == end {
            spec_nat_string(start as int)
        } else {
            spec_nat_string(start as int) + ".."@ + spec_nat_string(end as int)
        },
        Range::From { start } => spec_nat_string(start as int) + ".."@,
        Range::To { end } => ".."@ + spec_nat_string(end as int),
    }
}

/// The rendered source text of a token sequence: the tokens' renderings
/// joined by single spaces.
pub open spec fn spec_literal(v: Seq<SpecToken>) -> Seq<char>
    decreases v,
{
    if v.len() == 0 {
        Seq::empty()
    } else if v.len() == 1 {
        spec_convert(v[0])
    } else {
        spec_literal(v.drop_last()) + " "@ + spec_convert(v.last())
    }
}

fn range_string(r: &Range) -> (s: String)
    ensures
        s@ == spec_range_string(*r),
{
    match r {
        Range::Full { start, end } => {
            if start == end {
                nat_string(*start)
            } else {
                let mut s = nat_string(*start);
                s.append("..");
                let e = nat_string(*end);
                s.append(e.as_str());
                s
            }
        },
        Range::From { start } => {
            let mut s = nat_string(*start);
            s.append("..");
            s
        },
        Range::To { end } => {
            let mut s = String::from_str("..");
            let e = nat_string(*end);
            s.append(e.as_str());
            s
        },
    }
}

fn nat_string(n: usize) -> (r: String)
    ensures
        r@ == spec_nat_string(n as int),
{
    let digits = nat_digits(n as u64);
    let mut s = String::new();
    let mut i: usize = 0;
    while i < digits.len()
        invariant
            i <= digits.len(),
            s@ =~= digits@.subrange(0, i as int),
        decreases digits.len() - i,
    {
        push_char(&mut s, digits[i]);
        i = i + 1;
    }
    proof {
        assert(digits@.subrange(0, digits@.len() as int) =~= digits@);
    }
    s
}

/// Renders one token back to source text, as the original statement would
/// have shown it.
pub fn convert(token: &Token) -> (r: String)
    ensures
        r@ == spec_convert(token.deep_view()),
    decreases token,
{
    match token {
        Token::Value(x) => value_string(*x),
        Token::Atom(x) => {
            let mut s = String::from_str(":");
            s.append(x.as_str());
            s
        },
        Token::Special(x) => x.clone(),
        Token::Container(x) => x.clone(),
        Token::Function(x) => x.clone(),
        Token::Group(contents) => {
            match token.is_string() {
                Some(x) => x,
                None => {
                    let mut s = String::from_str("{");
                    let inner = literal(contents);
                    s.append(inner.as_str());
                    s.append("}");
                    s
                },
            }
        },
        Token::List(contents) => {
            let mut s = String::from_str("[");
            let inner = literal(contents);
            s.append(inner.as_str());
            s.append("]");
            s
        },
        Token::FunctionLiteral(x) => {
            let mut s = String::from_str("`");
            s.append(x.as_str());
            s.append("`");
            s
        },
        Token::ContainerLiteral(x) => {
            let mut s = String::from_str("`");
            s.append(x.as_str());
            s.append("`");
            s
        },
        Token::Lambda(contents) => {
            let mut s = String::from_str("Lambda(");
            let inner = literal(contents);
            s.append(inner.as_str());
            s.append(")");
            s
        },
        Token::ActiveLambda(contents) => {
            let mut s = String::from_str("ActiveLambda(");
            let inner = literal(contents);
            s.append(inner.as_str());
            s.append(")");
            s
        },
        Token::Parameter(r) => {
            let mut s = String::from_str("$");
            let t = range_string(r);
            s.append(t.as_str());
            s
        },
        Token::Char(c) => {
            let mut s = String::from_str("'");
            push_char(&mut s, *c);
            proof {
                assert(s@ =~= "'"@ + seq![*c]);
            }
            s.append("'");
            s
        },
        Token::Iterator(contents) => {
            let mut s = String::from_str("Iterator(");
            let inner = literal(contents);
            s.append(inner.as_str());
            s.append(")");
            s
        },
        Token::Null => String::from_str("Null"),
        Token::Void => String::from_str("Void"),
    }
}

/// Renders a token sequence back to source text, tokens joined by spaces.
pub fn literal(v: &Vec<Token>) -> (r: String)
    ensures
        r@ == spec_literal(token_models(*v)),
    decreases *v,
{
    let ghost m = token_models(*v);
    if v.len() == 0 {
        return String::new();
    }
    let mut s = convert(&v[0]);
    let mut i: usize = 1;
    while i < v.len()
        invariant
            1 <= i <= v.len(),
            m == token_models(*v),
            m.len() == v.len(),
            s@ == spec_literal(m.subrange(0, i as int)),
        decreases v.len() - i,
    {
        s.append(" ");
        let piece = convert(&v[i]);
        s.append(piece.as_str());
        proof {
            let pre = m.subrange(0, i as int);
            let cur = m.subrange(0, i + 1 as int);
            assert(cur.drop_last() =~= pre);
            assert(cur.last() == m[i as int]);
        }
        i = i + 1;
    }
    proof {
        assert(m.subrange(0, m.len() as int) =~= m);
    }
    s
}

/// Where the rendering of the `i`-th token starts inside the rendering of
/// the whole sequence.
pub open spec fn spec_literal_start(m: Seq<SpecToken>, i: int) -> int {
    if i == 0 {
        0
    } else {
        spec_literal(m.subrange(0, i)).len() as int + 1
    }
}

/// Where the rendering of the `i`-th token ends.
pub open spec fn spec_literal_end(m: Seq<SpecToken>, i: int) -> int {
    spec_literal_start(m, i) + spec_convert(m[i]).len()
}

/// Renders a token sequence and reports, for each token, the span its
/// rendering occupies in the rendered text; diagnostics use those spans as
/// labels.
pub fn literal_enumerate(v: &Vec<Token>) -> (r: (String, Vec<Span>))
    ensures
        r.0@ == spec_literal(token_models(*v)),
        r.1@.len() == v@.len(),
        forall|i: int|
            0 <= i < v@.len() ==> (#[trigger] r.1@[i]).start as int == spec_literal_start(
                token_models(*v),
                i,
            ) && r.1@[i].end as int == spec_literal_end(token_models(*v), i),
{
    let ghost m = token_models(*v);
    let mut spans: Vec<Span> = Vec::new();
    let mut s = String::new();
    let mut i: usize = 0;
    while i < v.len()
        invariant
            i <= v.len(),
            m == token_models(*v),
            m.len() == v.len(),
            s@ == spec_literal(m.subrange(0, i as int)),
            spans@.len() == i,
            forall|j: int|
                0 <= j < i ==> (#[trigger] spans@[j]).start as int == spec_literal_start(m, j)
                    && spans@[j].end as int == spec_literal_end(m, j),
        decreases v.len() - i,
    {
        if i > 0 {
            s.append(" ");
        }
        let start = s.as_str().unicode_len();
        let piece = convert(&v[i]);
        s.append(piece.as_str());
        let end = s.as_str().unicode_len();
        let ghost old_spans = spans@;
        spans.push(Span { start, end });
        proof {
            let pre = m.subrange(0, i as int);
            let cur = m.subrange(0, i + 1 as int);
            assert(m[i as int] == v[i as int].deep_view());
            if i == 0 {
                assert(cur =~= seq![m[0]]);
                assert(cur.len() == 1);
            } else {
                assert(cur.drop_last() =~= pre);
                assert(cur.last() == m[i as int]);
            }
            reveal_strlit(" ");
            assert(forall|j: int| 0 <= j < i ==> spans@[j] == old_spans[j]);
            assert(spans@[i as int].start == start && spans@[i as int].end == end);
            assert(start as int == spec_literal_start(m, i as int));
            assert(end as int == spec_literal_end(m, i as int));
        }
        i = i + 1;
    }
    proof {
        assert(m.subrange(0, m.len() as int) =~= m);
    }
    (s, spans)
}

/// The numeric reading of a token: its value for a number, `1` for anything
/// else.
pub open spec fn spec_as_num(t: SpecToken) -> int {
    match t {
        SpecToken::Value(n) => n,
        _ => 1,
    }
}

/// Reads a token sequence as numbers: number tokens keep their value, every
/// other token counts as `1`.
pub fn as_nums(v: &Vec<Token>) -> (r: Vec<i64>)
    ensures
        r@.len() == v@.len(),
        forall|i: int|
            0 <= i < v@.len() ==> (#[trigger] r@[i]) as int == spec_as_num(token_models(*v)[i]),
{
    let ghost m = token_models(*v);
    let mut out: Vec<i64> = Vec::new();
    let mut i: usize = 0;
    while i < v.len()
        invariant
            i <= v.len(),
            m == token_models(*v),
            m.len() == v.len(),
            out@.len() == i,
            forall|j: int| 0 <= j < i ==> (#[trigger] out@[j]) as int == spec_as_num(m[j]),
        decreases v.len() - i,
    {
        match &v[i] {
            Token::Value(n) => out.push(*n),
            _ => out.push(1),
        }
        i = i + 1;
    }
    out
}

/// The token a single character becomes.
pub open spec fn spec_char_token(c: char) -> SpecToken {
    SpecToken::Char(c)
}

/// The token form of a piece of text: one character token per character.
pub open spec fn spec_text_tokens(s: Seq<char>) -> Seq<SpecToken>
    decreases s.len(),
{
    if s.len() == 0 {
        Seq::empty()
    } else {
        spec_text_tokens(s.drop_last()).push(spec_char_token(s.last()))
    }
}

/// Each position of the token form holds the character at that position.
pub proof fn lemma_text_tokens_index(s: Seq<char>)
    ensures
        spec_text_tokens(s).len() == s.len(),
        forall|i: int|
            0 <= i < s.len() ==> spec_text_tokens(s)[i] == SpecToken::Char(#[trigger] s[i]),
    decreases s.len(),
{
    if s.len() > 0 {
        lemma_text_tokens_index(s.drop_last());
        assert(spec_text_tokens(s) == spec_text_tokens(s.drop_last()).push(
            spec_char_token(s.last()),
        ));
        assert forall|i: int|
            0 <= i < s.len() implies spec_text_tokens(s)[i] == SpecToken::Char(
            #[trigger] s[i],
        ) by {
            if i < s.len() - 1 {
                assert(spec_text_tokens(s)[i] == spec_text_tokens(s.drop_last())[i]);
                assert(s.drop_last()[i] == s[i]);
            } else {
                assert(spec_text_tokens(s)[i] == SpecToken::Char(s.last()));
            }
        }
    }
}

/// Builds the interpreter's string representation from text: a group of
/// character tokens.
pub fn encode_string(string: &str) -> (r: Token)
    ensures
        r.deep_view() is Group,
        r.deep_view() == SpecToken::Group(spec_text_tokens(string@)),
        spec_as_string(r.deep_view()) == Some(string@),
{
    let n = string.unicode_len();
    let mut out: Vec<Token> = Vec::new();
    let mut i: usize = 0;
    while i < n
        invariant
            i <= n,
            n == string@.len(),
            out@.len() == i,
            forall|j: int|
                0 <= j < i ==> (#[trigger] out@[j].deep_view()) == SpecToken::Char(string@[j]),
        decreases n - i,
    {
        out.push(Token::Char(string.get_char(i)));
        i = i + 1;
    }
    proof {
        let m = token_models(out);
        assert forall|j: int| 0 <= j < m.len() implies m[j] is Char by {
            assert(out@[j].deep_view() == SpecToken::Char(string@[j]));
        }
        assert forall|j: int| 0 <= j < m.len() implies spec_chars_of(m)[j] == string@[j] by {
            assert(out@[j].deep_view() == SpecToken::Char(string@[j]));
        }
        assert(spec_chars_of(m) =~= string@);
        lemma_text_tokens_index(string@);
        assert forall|j: int|
            0 <= j < string@.len() implies token_models(out)[j] == spec_text_tokens(
            string@,
        )[j] by {
            assert(out@[j].deep_view() == SpecToken::Char(string@[j]));
            assert(spec_text_tokens(string@)[j] == SpecToken::Char(string@[j]));
        }
        assert(token_models(out) =~= spec_text_tokens(string@));
    }
    Token::Group(out)
}



/// How many call-site operands a selector needs so that every position it
/// names exists. Demands are clipped at `usize::MAX`, the most operands a
/// stack can hold.
pub open spec fn spec_selector_demand(r: Range) -> int {
    match r {
        Range::Full { start, end } => if end == usize::MAX {
            usize::MAX as int
        } else {
            end + 1
        },
        Range::From { start } => if start == usize::MAX {
            usize::MAX as int
        } else {
            start + 1
        },
        Range::To { end } => end as int,
    }
}

/// The highest operand position a single token references: a selector's
/// demand, or the highest reference inside a nested group or list.
pub open spec fn spec_token_highest(t: SpecToken) -> int
    decreases t,
{
    match t {
        SpecToken::Parameter(r) => spec_selector_demand(r),
        SpecToken::Group(s) => spec_highest(s),
        SpecToken::List(s) => spec_highest(s),
        _ => 0,
    }
}

/// The arity a token sequence implies: the highest operand position any of
/// its selectors references.
pub open spec fn spec_highest(v: Seq<SpecToken>) -> int
    decreases v,
{
    if v.len() == 0 {
        0
    } else {
        let rest = spec_highest(v.drop_last());
        let h = spec_token_highest(v.last());
        if h > rest {
            h
        } else {
            rest
        }
    }
}

proof fn lemma_token_highest_bounds(t: SpecToken)
    ensures
        0 <= spec_token_highest(t) <= usize::MAX,
    decreases t,
{
    match t {
        SpecToken::Group(s) => lemma_highest_bounds(s),
        SpecToken::List(s) => lemma_highest_bounds(s),
        _ => {},
    }
}

proof fn lemma_highest_bounds(v: Seq<SpecToken>)
    ensures
        0 <= spec_highest(v) <= usize::MAX,
    decreases v,
{
    if v.len() > 0 {
        lemma_highest_bounds(v.drop_last());
        lemma_token_highest_bounds(v.last());
    }
}

/// The highest operand position one token references.
pub fn token_highest(t: &Token) -> (h: usize)
    ensures
        h as int == spec_token_highest(t.deep_view()),
    decreases t,
{
    match t {
        Token::Parameter(r) => match r {
            Range::Full { start, end } => {
                if *end == usize::MAX {
                    usize::MAX
                } else {
                    *end + 1
                }
            },
            Range::From { start } => {
                if *start == usize::MAX {
                    usize::MAX
                } else {
                    *start + 1
                }
            },
            Range::To { end } => *end,
        },
        Token::Group(s) => highest(s),
        Token::List(s) => highest(s),
        _ => 0,
    }
}

/// The arity a token sequence implies: how many operands a body that
/// references these selectors needs.
pub fn highest(v: &Vec<Token>) -> (h: usize)
    ensures
        h as int == spec_highest(token_models(*v)),
    decreases *v,
{
    let ghost m = token_models(*v);
    let mut h: usize = 0;
    let mut i: usize = 0;
    while i < v.len()
        invariant
            i <= v.len(),
            m == token_models(*v),
            m.len() == v.len(),
            h as int == spec_highest(m.subrange(0, i as int)),
        decreases v.len() - i,
    {
        let th = token_highest(&v[i]);
        if th > h {
            h = th;
        }
        proof {
            let pre = m.subrange(0, i as int);
            let cur = m.subrange(0, i + 1 as int);
            assert(cur.drop_last() =~= pre);
            assert(cur.last() == m[i as int]);
        }
        i = i + 1;
    }
    proof {
        assert(m.subrange(0, m.len() as int) =~= m);
    }
    h
}

/// The sub-sequence of call-site operands a selector denotes, in textual
/// order; positions that run past the operand list are clipped off.
pub open spec fn spec_slice(ops: Seq<SpecToken>, r: Range) -> Seq<SpecToken> {
    let len = ops.len() as int;
    match r {
        Range::Full { start, end } => {
            let lo = if start as int <= len { start as int } else { len };
            let hi = if end as int + 1 <= len { end as int + 1 } else { len };
            if lo <= hi {
                ops.subrange(lo, hi)
            } else {
                Seq::empty()
            }
        },
        Range::From { start } => {
            let lo = if start as int <= len { start as int } else { len };
            ops.subrange(lo, len)
        },
        Range::To { end } => {
            let hi = if end as int <= len { end as int } else { len };
            ops.subrange(0, hi)
        },
    }
}

/// What one body token contributes after substitution: a selector becomes
/// the operand slice it denotes, a group is rewritten recursively, and every
/// other token is kept.
pub open spec fn spec_resolve_token(t: SpecToken, ops: Seq<SpecToken>) -> Seq<SpecToken>
    decreases t,
{
    match t {
        SpecToken::Parameter(r) => spec_slice(ops, r),
        SpecToken::Group(s) => seq![SpecToken::Group(spec_resolve(s, ops))],
        _ => seq![t],
    }
}

/// Substitution: every selector in the body is replaced in place by the
/// operand slice it denotes, recursively inside nested groups; all other
/// tokens are copied unchanged. `ops` is the call-site operand list in
/// textual order. Substitution is pure rewriting and cannot fail.
pub open spec fn spec_resolve(body: Seq<SpecToken>, ops: Seq<SpecToken>) -> Seq<SpecToken>
    decreases body,
{
    if body.len() == 0 {
        Seq::empty()
    } else {
        spec_resolve(body.drop_last(), ops) + spec_resolve_token(body.last(), ops)
    }
}

/// Pushes deep copies of `ops[lo..hi]` onto `out`.
fn push_slice(out: &mut Vec<Token>, ops: &Vec<Token>, lo: usize, hi: usize)
    requires
        lo <= hi <= ops@.len(),
    ensures
        token_models(*final(out)) == token_models(*old(out)) + token_models(*ops).subrange(
            lo as int,
            hi as int,
        ),
    decreases *ops,
{
    let ghost base = token_models(*old(out));
    let ghost m = token_models(*ops);
    let mut k: usize = lo;
    while k < hi
        invariant
            lo <= k <= hi <= ops@.len(),
            m == token_models(*ops),
            m.len() == ops@.len(),
            token_models(*out) == base + m.subrange(lo as int, k as int),
        decreases hi - k,
    {
        let ghost before = token_models(*out);
        out.push(ops[k].duplicate());
        proof {
            assert(token_models(*out) =~= before.push(m[k as int]));
            assert(before.push(m[k as int]) =~= base + m.subrange(lo as int, k + 1 as int));
        }
        k = k + 1;
    }
}

/// Substitutes the operands into one body, per `spec_resolve`.
fn resolve_body(body: &Vec<Token>, ops: &Vec<Token>) -> (r: Vec<Token>)
    ensures
        token_models(r) == spec_resolve(token_models(*body), token_models(*ops)),
    decreases *body,
{
    let ghost m = token_models(*body);
    let ghost opsm = token_models(*ops);
    let mut out: Vec<Token> = Vec::new();
    let mut i: usize = 0;
    proof {
        assert(token_models(out) =~= Seq::<SpecToken>::empty());
        assert(m.subrange(0, 0) =~= Seq::<SpecToken>::empty());
        assert(spec_resolve(m.subrange(0, 0), opsm) == Seq::<SpecToken>::empty());
    }
    while i < body.len()
        invariant
            i <= body.len(),
            m == token_models(*body),
            opsm == token_models(*ops),
            m.len() == body.len(),
            token_models(out) == spec_resolve(m.subrange(0, i as int), opsm),
        decreases body.len() - i,
    {
        let ghost before = token_models(out);
        match &body[i] {
            Token::Parameter(sel) => {
                let len = ops.len();
                match sel {
                    Range::Full { start, end } => {
                        let lo = if *start <= len { *start } else { len };
                        let hi = if *end < len { *end + 1 } else { len };
                        if lo <= hi {
                            push_slice(&mut out, ops, lo, hi);
                        }
                    },
                    Range::From { start } => {
                        let lo = if *start <= len { *start } else { len };
                        push_slice(&mut out, ops, lo, len);
                    },
                    Range::To { end } => {
                        let hi = if *end <= len { *end } else { len };
                        push_slice(&mut out, ops, 0, hi);
                    },
                }
                proof {
                    assert(m[i as int] == body[i as int].deep_view());
                    assert(m[i as int] == SpecToken::Parameter(*sel));
                    assert(token_models(out) =~= before + spec_slice(opsm, *sel));
                    assert(token_models(out) == before + spec_resolve_token(m[i as int], opsm));
                }
            },
            Token::Group(inner) => {
                let g = resolve_body(inner, ops);
                out.push(Token::Group(g));
                proof {
                    assert(m[i as int] == body[i as int].deep_view());
                    assert(token_models(out) =~= before + spec_resolve_token(m[i as int], opsm));
                }
            },
            other => {
                out.push(other.duplicate());
                proof {
                    assert(m[i as int] == body[i as int].deep_view());
                    assert(!(m[i as int] is Parameter) && !(m[i as int] is Group));
                    assert(token_models(out) =~= before + seq![m[i as int]]);
                    assert(token_models(out) == before + spec_resolve_token(m[i as int], opsm));
                }
            },
        }
        proof {
            let pre = m.subrange(0, i as int);
            let cur = m.subrange(0, i + 1 as int);
            assert(cur.drop_last() =~= pre);
            assert(cur.last() == m[i as int]);
            assert(token_models(out) == spec_resolve(cur, opsm));
        }
        i = i + 1;
    }
    proof {
        assert(m.subrange(0, m.len() as int) =~= m);
    }
    out
}

/// Builds a deep copy of the operand list in reverse: extraction hands the
/// operands over nearest-first, and substitution addresses them in textual
/// order.
pub(crate) fn reverse_tokens(v: &Vec<Token>) -> (r: Vec<Token>)
    ensures
        token_models(r) == token_models(*v).reverse(),
{
    let ghost m = token_models(*v);
    let mut out: Vec<Token> = Vec::new();
    let mut i: usize = v.len();
    while i > 0
        invariant
            i <= v.len(),
            m == token_models(*v),
            m.len() == v.len(),
            out@.len() == v.len() - i,
            forall|j: int|
                0 <= j < out@.len() ==> (#[trigger] out@[j].deep_view()) == m[m.len() - 1 - j],
        decreases i,
    {
        i = i - 1;
        out.push(v[i].duplicate());
    }
    proof {
        assert forall|j: int|
            0 <= j < m.len() implies token_models(out)[j] == m.reverse()[j] by {
            assert(out@[j].deep_view() == m[m.len() - 1 - j]);
        }
        assert(token_models(out) =~= m.reverse());
    }
    out
}

impl State {
    /// Substitution, §`spec_resolve`: the body with every selector replaced
    /// by the call-site operand slice it denotes. `arr` holds the extracted
    /// operands nearest-first, exactly as extraction returns them.
    pub fn resolve(&self, function: &Vec<Token>, arr: &Vec<Token>) -> (r: Vec<Token>)
        ensures
            token_models(r) == spec_resolve(
                token_models(*function),
                token_models(*arr).reverse(),
            ),
    {
        let reversed = reverse_tokens(arr);
        resolve_body(function, &reversed)
    }
}

/// A list of `n` wildcard tags: user procedures and lambdas accept any
/// operand.
pub open spec fn spec_any_tags(n: int) -> Seq<Seq<char>>
    decreases n,
{
    if n <= 0 {
        Seq::empty()
    } else {
        spec_any_tags(n - 1).push("Any"@)
    }
}

/// The arity a whole case table implies: the highest selector reference in
/// any predicate or consequent.
pub open spec fn spec_cases_highest(cases: Seq<crate::SpecCase>) -> int
    decreases cases.len(),
{
    if cases.len() == 0 {
        0
    } else {
        let rest = spec_cases_highest(cases.drop_last());
        let hp = spec_highest(cases.last().0);
        let hc = spec_highest(cases.last().1);
        let h = if hp > hc {
            hp
        } else {
            hc
        };
        if h > rest {
            h
        } else {
            rest
        }
    }
}

/// The operand tags a call token demands: a primitive's registered
/// signature; wildcard tags for a lambda, as many as its body references;
/// wildcard tags for a procedure, as many as its case table references.
/// `None` for a name neither the registry nor the environment knows.
pub open spec fn spec_expected_tags(
    f: SpecToken,
    env: Map<Seq<char>, Seq<crate::SpecCase>>,
) -> Option<Seq<Seq<char>>> {
    match f {
        SpecToken::Function(name) => crate::stdlib::spec_signature(name),
        SpecToken::ActiveLambda(body) => Some(spec_any_tags(spec_highest(body))),
        SpecToken::Container(name) => if env.contains_key(name) {
            Some(spec_any_tags(spec_cases_highest(env[name])))
        } else {
            None
        },
        _ => Option::None,
    }
}

/// Whether the top of the operand stack satisfies the expected tags, the
/// operand nearest the call checked against the first tag.
pub open spec fn spec_tags_ok(stack: Seq<SpecToken>, tags: Seq<Seq<char>>) -> bool {
    forall|i: int|
        0 <= i < tags.len() ==> crate::stdlib::spec_matches_tag(
            tags[i],
            stack[stack.len() - 1 - i],
        )
}

/// The operands extraction removes: the last `n` stack entries, nearest
/// first.
pub open spec fn spec_extracted(stack: Seq<SpecToken>, n: int) -> Seq<SpecToken> {
    stack.subrange(stack.len() - n, stack.len() as int).reverse()
}

/// The expected tags joined by spaces, for the missing-parameter report.
pub open spec fn spec_join_tags(tags: Seq<Seq<char>>) -> Seq<char>
    decreases tags.len(),
{
    if tags.len() == 0 {
        Seq::empty()
    } else if tags.len() == 1 {
        tags[0]
    } else {
        spec_join_tags(tags.drop_last()) + " "@ + tags.last()
    }
}

/// The span of the `idx`-th token of the reconstructed call text, or an
/// empty span when the text has no such token.
pub open spec fn spec_token_span(refm: Seq<SpecToken>, idx: int) -> Span {
    if 0 <= idx < refm.len() {
        Span {
            start: spec_literal_start(refm, idx) as usize,
            end: spec_literal_end(refm, idx) as usize,
        }
    } else {
        Span { start: 0, end: 0 }
    }
}

/// The label reported for the `i`-th extracted operand when it does not
/// satisfy its tag.
pub open spec fn spec_mismatch_label(
    tags: Seq<Seq<char>>,
    stack: Seq<SpecToken>,
    refm: Seq<SpecToken>,
    i: int,
) -> crate::diagnostics::SpecLabel {
    crate::diagnostics::SpecLabel {
        span: spec_token_span(refm, stack.len() - 1 - i),
        message: "This has the type of "@ + spec_type_of(stack[stack.len() - 1 - i])
            + " but expected "@ + tags[i] + "."@,
        severity: crate::diagnostics::Severity::Error,
    }
}

/// The labels of a mismatched-types report: one per offending operand, in
/// the order extraction pops them.
pub open spec fn spec_mismatch_labels(
    tags: Seq<Seq<char>>,
    stack: Seq<SpecToken>,
    refm: Seq<SpecToken>,
    upto: int,
) -> Seq<crate::diagnostics::SpecLabel>
    decreases upto,
{
    if upto <= 0 {
        Seq::empty()
    } else {
        spec_mismatch_labels(tags, stack, refm, upto - 1) + (if crate::stdlib::spec_matches_tag(
            tags[upto - 1],
            stack[stack.len() - upto],
        ) {
            Seq::empty()
        } else {
            seq![spec_mismatch_label(tags, stack, refm, upto - 1)]
        })
    }
}

/// The missing-parameters report: a label at the call naming the expected
/// tags, and, when some operands were present, a second label counting
/// them.
pub open spec fn spec_missing_diag(
    tags: Seq<Seq<char>>,
    refm: Seq<SpecToken>,
    avail: int,
) -> crate::diagnostics::SpecDiag {
    let head = crate::diagnostics::SpecLabel {
        span: spec_token_span(refm, refm.len() - 1),
        message: "This function expects the parameters ("@ + spec_join_tags(tags) + ")."@,
        severity: crate::diagnostics::Severity::Error,
    };
    let labels = if avail > 0 && refm.len() >= 2 {
        seq![
            head,
            crate::diagnostics::SpecLabel {
                span: Span {
                    start: spec_token_span(refm, 0).start,
                    end: spec_token_span(refm, refm.len() - 2).end,
                },
                message: "Only "@ + spec_nat_string(avail) + " parameter(s) provided."@,
                severity: crate::diagnostics::Severity::Warning,
            },
        ]
    } else {
        seq![head]
    };
    crate::diagnostics::SpecDiag {
        message: "Missing Parameters"@,
        labels,
        source: spec_literal(refm),
    }
}

fn any_tags_vec(n: usize) -> (r: Vec<String>)
    ensures
        r.deep_view() == spec_any_tags(n as int),
        r@.len() == n,
{
    let mut v: Vec<String> = Vec::new();
    let mut i: usize = 0;
    while i < n
        invariant
            i <= n,
            v@.len() == i,
            v.deep_view() =~= spec_any_tags(i as int),
        decreases n - i,
    {
        let ghost before = v.deep_view();
        v.push("Any".to_owned());
        proof {
            assert forall|j: int| 0 <= j < v@.len() implies v.deep_view()[j] == spec_any_tags(
                i + 1 as int,
            )[j] by {
                crate::lemma_vec_deep_view_index(v, j);
                if j < i {
                    assert(before[j] == spec_any_tags(i as int)[j]);
                }
            }
            assert(v.deep_view() =~= spec_any_tags(i + 1 as int));
        }
        i = i + 1;
    }
    v
}

/// The arity a case table implies, clipped at what a stack can hold.
pub fn cases_highest(cases: &Vec<crate::Case>) -> (h: usize)
    ensures
        h as int == spec_cases_highest(cases.deep_view()),
{
    let ghost cm = cases.deep_view();
    let mut h: usize = 0;
    let mut i: usize = 0;
    while i < cases.len()
        invariant
            i <= cases.len(),
            cm == cases.deep_view(),
            cm.len() == cases@.len(),
            h as int == spec_cases_highest(cm.subrange(0, i as int)),
        decreases cases.len() - i,
    {
        let hp = highest(&cases[i].0);
        let hc = highest(&cases[i].1);
        let hb = if hp > hc {
            hp
        } else {
            hc
        };
        if hb > h {
            h = hb;
        }
        proof {
            crate::lemma_vec_deep_view_index(*cases, i as int);
            crate::lemma_token_models_is_deep_view(cases[i as int].0);
            crate::lemma_token_models_is_deep_view(cases[i as int].1);
            let pre = cm.subrange(0, i as int);
            let cur = cm.subrange(0, i + 1 as int);
            assert(cur.drop_last() =~= pre);
            assert(cur.last() == cm[i as int]);
        }
        i = i + 1;
    }
    proof {
        assert(cm.subrange(0, cm.len() as int) =~= cm);
    }
    h
}

/// Extraction: pops the operands a call needs from the back of the operand
/// stack, checking each against its expected tag. On success the operands
/// come back nearest-first and the stack shrinks by the call's arity; on
/// any failure the stack is left unchanged and a single report carries
/// every problem of the call. `reference_code` is the remaining statement,
/// operand stack first, from which the report's source text and spans are
/// reconstructed.
pub fn get_par(
    stack: &mut Vec<Token>,
    func: &Token,
    reference_code: &Vec<Token>,
    state: &State,
) -> (r: Result<Tokens, Diag>)
    requires
        state.wf(),
        func.deep_view() is Function || func.deep_view() is Container || func.deep_view()
            is ActiveLambda,
    ensures
        spec_expected_tags(func.deep_view(), state.env()) is None ==> r is Err && token_models(
            *final(stack),
        ) == token_models(*old(stack)) && (func.deep_view() is Function
            ==> r->Err_0.deep_view().message == "Unknown Function"@) && (func.deep_view()
            is Container ==> r->Err_0.deep_view().message == "Undefined Container"@),
        spec_expected_tags(func.deep_view(), state.env()) matches Some(tags) ==> {
            let m0 = token_models(*old(stack));
            let refm = token_models(*reference_code);
            let n = tags.len() as int;
            &&& (r is Ok <==> m0.len() >= n && spec_tags_ok(m0, tags))
            &&& (r is Ok ==> token_models(r->Ok_0) == spec_extracted(m0, n) && token_models(
                *final(stack),
            ) == m0.subrange(0, m0.len() - n))
            &&& (r is Err ==> token_models(*final(stack)) == m0)
            &&& (m0.len() < n ==> r is Err && r->Err_0.deep_view() == spec_missing_diag(
                tags,
                refm,
                m0.len() as int,
            ))
            &&& (m0.len() >= n && !spec_tags_ok(m0, tags) ==> r is Err
                && r->Err_0.deep_view() == crate::diagnostics::SpecDiag {
                message: "Mismatched Types"@,
                labels: spec_mismatch_labels(tags, m0, refm, n),
                source: spec_literal(refm),
            })
        },
{
    let ghost m0 = token_models(*stack);
    let ghost refm = token_models(*reference_code);
    let tags: Vec<String> = match func {
        Token::Function(ident) => {
            match crate::stdlib::function_signature(ident.as_str()) {
                Some(t) => t,
                None => {
                    return Err(
                        simple_diag("Unknown Function", "No primitive goes by this name."),
                    );
                },
            }
        },
        Token::ActiveLambda(body) => {
            proof {
                crate::lemma_token_models_is_deep_view(*body);
            }
            any_tags_vec(highest(body))
        },
        Token::Container(ident) => {
            match state.get(ident.as_str()) {
                Some(cases) => any_tags_vec(cases_highest(cases)),
                None => {
                    return Err(
                        simple_diag(
                            "Undefined Container",
                            "No procedure of this name has been defined.",
                        ),
                    );
                },
            }
        },
        _ => {
            return unreached();
        },
    };
    let ghost tg = tags.deep_view();
    let n = tags.len();
    let (src, spans) = literal_enumerate(reference_code);
    if stack.len() < n {
        let avail = stack.len();
        let mut detail = String::from_str("This function expects the parameters (");
        let joined = join_tags(&tags);
        detail.append(joined.as_str());
        detail.append(").");
        let mut labels: Vec<Label> = Vec::new();
        let head_span = if reference_code.len() > 0 {
            spans[reference_code.len() - 1]
        } else {
            Span { start: 0, end: 0 }
        };
        labels.push(Label { span: head_span, message: detail, severity: Severity::Error });
        if avail > 0 && reference_code.len() >= 2 {
            let mut counted = String::from_str("Only ");
            let num = nat_string(avail);
            counted.append(num.as_str());
            counted.append(" parameter(s) provided.");
            labels.push(
                Label {
                    span: Span {
                        start: spans[0].start,
                        end: spans[reference_code.len() - 2].end,
                    },
                    message: counted,
                    severity: Severity::Warning,
                },
            );
        }
        let d = Diag { message: String::from_str("Missing Parameters"), labels, source: src };
        proof {
            assert(d.labels.deep_view() =~= spec_missing_diag(tg, refm, m0.len() as int).labels);
            assert(d.deep_view() == spec_missing_diag(tg, refm, m0.len() as int));
        }
        return Err(d);
    }
    let mut labels: Vec<Label> = Vec::new();
    let mut i: usize = 0;
    while i < n
        invariant
            i <= n,
            n == tags@.len(),
            tg == tags.deep_view(),
            m0 == token_models(*stack),
            refm == token_models(*reference_code),
            m0.len() == stack@.len(),
            n <= stack@.len(),
            spans@.len() == reference_code@.len(),
            forall|k: int|
                0 <= k < refm.len() ==> (#[trigger] spans@[k]).start as int == spec_literal_start(
                    refm,
                    k,
                ) && spans@[k].end as int == spec_literal_end(refm, k),
            labels.deep_view() =~= spec_mismatch_labels(tg, m0, refm, i as int),
        decreases n - i,
    {
        let idx = stack.len() - 1 - i;
        let ok = crate::stdlib::matches_tag(tags[i].as_str(), &stack[idx]);
        proof {
            assert(m0[idx as int] == stack[idx as int].deep_view());
            crate::lemma_vec_deep_view_index(tags, i as int);
        }
        if !ok {
            let tt = type_of(&stack[idx]);
            let mut msg = String::from_str("This has the type of ");
            msg.append(tt.as_str());
            msg.append(" but expected ");
            msg.append(tags[i].as_str());
            msg.append(".");
            let span = if idx < spans.len() {
                spans[idx]
            } else {
                Span { start: 0, end: 0 }
            };
            let ghost before = labels.deep_view();
            labels.push(Label { span, message: msg, severity: Severity::Error });
            proof {
                assert(labels.deep_view() =~= before.push(
                    spec_mismatch_label(tg, m0, refm, i as int),
                ));
            }
        }
        proof {
            assert(labels.deep_view() =~= spec_mismatch_labels(tg, m0, refm, i + 1 as int));
        }
        i = i + 1;
    }
    if labels.len() > 0 {
        proof {
            lemma_mismatch_nonempty_means_bad(tg, m0, refm, n as int);
        }
        return Err(
            Diag { message: String::from_str("Mismatched Types"), labels, source: src },
        );
    }
    proof {
        lemma_mismatch_empty_means_ok(tg, m0, refm, n as int);
    }
    let mut result: Vec<Token> = Vec::new();
    let mut k: usize = 0;
    while k < n
        invariant
            k <= n,
            n <= stack@.len() + k,
            m0.len() == stack@.len() + k,
            token_models(*stack) == m0.subrange(0, m0.len() - k),
            result@.len() == k,
            forall|j: int|
                0 <= j < k ==> (#[trigger] result@[j].deep_view()) == m0[m0.len() - 1 - j],
        decreases n - k,
    {
        let t = match stack.pop() {
            Some(t) => t,
            None => {
                return unreached();
            },
        };
        proof {
            let pre = m0.subrange(0, m0.len() - k);
            assert(t.deep_view() == pre[pre.len() - 1]);
            assert(token_models(*stack) =~= m0.subrange(0, m0.len() - (k + 1)));
        }
        result.push(t);
        k = k + 1;
    }
    proof {
        assert forall|j: int|
            0 <= j < n implies token_models(result)[j] == spec_extracted(m0, n as int)[j] by {
            assert(result@[j].deep_view() == m0[m0.len() - 1 - j]);
        }
        assert(token_models(result) =~= spec_extracted(m0, n as int));
    }
    Ok(result)
}

fn join_tags(tags: &Vec<String>) -> (r: String)
    ensures
        r@ == spec_join_tags(tags.deep_view()),
{
    let ghost tg = tags.deep_view();
    let mut s = String::new();
    let mut i: usize = 0;
    while i < tags.len()
        invariant
            i <= tags.len(),
            tg == tags.deep_view(),
            tg.len() == tags@.len(),
            s@ == spec_join_tags(tg.subrange(0, i as int)),
        decreases tags.len() - i,
    {
        if i > 0 {
            s.append(" ");
        }
        s.append(tags[i].as_str());
        proof {
            crate::lemma_vec_deep_view_index(*tags, i as int);
            let pre = tg.subrange(0, i as int);
            let cur = tg.subrange(0, i + 1 as int);
            assert(cur.drop_last() =~= pre);
            assert(cur.last() == tg[i as int]);
            if i == 0 {
                assert(cur =~= seq![tg[0]]);
                assert(s@ =~= spec_join_tags(cur));
            }
        }
        i = i + 1;
    }
    proof {
        assert(tg.subrange(0, tg.len() as int) =~= tg);
    }
    s
}

/// When every expected tag was satisfied, no mismatch label exists and the
/// stack's top satisfies the tags.
proof fn lemma_mismatch_empty_means_ok(
    tags: Seq<Seq<char>>,
    stack: Seq<SpecToken>,
    refm: Seq<SpecToken>,
    n: int,
)
    requires
        0 <= n <= tags.len(),
        spec_mismatch_labels(tags, stack, refm, n).len() == 0,
    ensures
        forall|i: int|
            0 <= i < n ==> crate::stdlib::spec_matches_tag(tags[i], stack[stack.len() - 1 - i]),
    decreases n,
{
    if n > 0 {
        lemma_mismatch_empty_means_ok(tags, stack, refm, n - 1);
    }
}

/// A mismatch label exists exactly when some expected tag was not
/// satisfied.
proof fn lemma_mismatch_nonempty_means_bad(
    tags: Seq<Seq<char>>,
    stack: Seq<SpecToken>,
    refm: Seq<SpecToken>,
    n: int,
)
    requires
        0 <= n <= tags.len(),
        spec_mismatch_labels(tags, stack, refm, n).len() > 0,
    ensures
        exists|i: int|
            0 <= i < n && !crate::stdlib::spec_matches_tag(tags[i], stack[stack.len() - 1 - i]),
    decreases n,
{
    if n > 0 {
        if spec_mismatch_labels(tags, stack, refm, n - 1).len() > 0 {
            lemma_mismatch_nonempty_means_bad(tags, stack, refm, n - 1);
        } else {
            assert(!crate::stdlib::spec_matches_tag(tags[n - 1], stack[stack.len() - n]));
        }
    }
}

/// The position of the first bracket marker of the given kind at or after
/// `i`.
pub open spec fn spec_find_open(m: Seq<SpecToken>, tag: Seq<char>, i: int) -> Option<int>
    decreases m.len() - i,
{
    if i < 0 || i >= m.len() {
        None
    } else if m[i] == SpecToken::Special(tag) {
        Some(i)
    } else {
        spec_find_open(m, tag, i + 1)
    }
}

/// The position where the bracket nesting count, starting at `count` just
/// before position `j`, first returns to zero on a closing marker.
pub open spec fn spec_find_close(
    m: Seq<SpecToken>,
    open: Seq<char>,
    close: Seq<char>,
    j: int,
    count: int,
) -> Option<int>
    decreases m.len() - j,
{
    if j < 0 || j >= m.len() {
        None
    } else {
        let c2 = if m[j] == SpecToken::Special(open) {
            count + 1
        } else if m[j] == SpecToken::Special(close) {
            count - 1
        } else {
            count
        };
        if m[j] == SpecToken::Special(close) && c2 == 0 {
            Some(j)
        } else {
            spec_find_close(m, open, close, j + 1, c2)
        }
    }
}

/// The first opening bracket of the given kind and its matching closing
/// bracket, nesting counted.
pub open spec fn spec_special_pairs(
    m: Seq<SpecToken>,
    open: Seq<char>,
    close: Seq<char>,
) -> Option<(int, int)> {
    match spec_find_open(m, open, 0) {
        Some(x) => match spec_find_close(m, open, close, x + 1, 1) {
            Some(y) => Some((x, y)),
            None => None,
        },
        None => None,
    }
}

proof fn lemma_find_open_bounds(m: Seq<SpecToken>, tag: Seq<char>, i: int)
    ensures
        spec_find_open(m, tag, i) matches Some(x) ==> i <= x < m.len() && m[x]
            == SpecToken::Special(tag),
    decreases m.len() - i,
{
    if 0 <= i < m.len() && m[i] != SpecToken::Special(tag) {
        lemma_find_open_bounds(m, tag, i + 1);
    }
}

proof fn lemma_find_close_bounds(
    m: Seq<SpecToken>,
    open: Seq<char>,
    close: Seq<char>,
    j: int,
    count: int,
)
    ensures
        spec_find_close(m, open, close, j, count) matches Some(y) ==> j <= y < m.len() && m[y]
            == SpecToken::Special(close),
    decreases m.len() - j,
{
    if 0 <= j < m.len() {
        let c2 = if m[j] == SpecToken::Special(open) {
            count + 1
        } else if m[j] == SpecToken::Special(close) {
            count - 1
        } else {
            count
        };
        if !(m[j] == SpecToken::Special(close) && c2 == 0) {
            lemma_find_close_bounds(m, open, close, j + 1, c2);
        }
    }
}

/// Finds the first opening bracket of the given kind and the matching
/// closing bracket, counting nesting.
pub fn special_pairs(v: &Vec<Token>, first: &str, second: &str) -> (r: Option<(usize, usize)>)
    ensures
        r matches Some(p) ==> p.0 < p.1 < v@.len() && token_models(*v)[p.0 as int]
            == SpecToken::Special(first@) && token_models(*v)[p.1 as int] == SpecToken::Special(
            second@,
        ),
        match (r, spec_special_pairs(token_models(*v), first@, second@)) {
            (Some(p), Some(q)) => p.0 as int == q.0 && p.1 as int == q.1,
            (None, None) => true,
            _ => false,
        },
{
    let ghost m = token_models(*v);
    let n = v.len();
    let mut x: usize = 0;
    let mut found = false;
    while x < n && !found
        invariant
            x <= n,
            n == v@.len(),
            m == token_models(*v),
            found ==> x < n && m[x as int] == SpecToken::Special(first@)
                && spec_find_open(m, first@, 0) == Some(x as int),
            !found ==> spec_find_open(m, first@, 0) == spec_find_open(m, first@, x as int),
        decreases n - x + (if found { 0int } else { 1int }),
    {
        let is_open = match &v[x] {
            Token::Special(s) => word_eq(s.as_str(), first),
            _ => false,
        };
        proof {
            assert(m[x as int] == v[x as int].deep_view());
        }
        if is_open {
            found = true;
        } else {
            x = x + 1;
        }
    }
    if !found {
        proof {
            assert(spec_find_open(m, first@, n as int) is None);
        }
        return None;
    }
    let mut count: usize = 1;
    let mut j: usize = x + 1;
    while j < n
        invariant
            x < j <= n,
            n == v@.len(),
            m == token_models(*v),
            m[x as int] == SpecToken::Special(first@),
            spec_find_open(m, first@, 0) == Some(x as int),
            1 <= count as int <= j - x,
            spec_find_close(m, first@, second@, x + 1 as int, 1) == spec_find_close(
                m,
                first@,
                second@,
                j as int,
                count as int,
            ),
        decreases n - j,
    {
        let (opens, closes) = match &v[j] {
            Token::Special(s) => (word_eq(s.as_str(), first), word_eq(s.as_str(), second)),
            _ => (false, false),
        };
        proof {
            assert(m[j as int] == v[j as int].deep_view());
            reveal_strlit("{");
            reveal_strlit("}");
            reveal_strlit("[");
            reveal_strlit("]");
        }
        if opens {
            proof {
                assert(count as int <= j - x);
                assert((j as int) < n as int);
            }
            count = count + 1;
        } else if closes {
            if count == 1 {
                return Some((x, j));
            }
            count = count - 1;
        }
        j = j + 1;
    }
    proof {
        assert(spec_find_close(m, first@, second@, n as int, count as int) is None);
    }
    None
}

/// What one bundling step and its recursion produce: the first matched
/// `{ ... }` span folds into a group token around its recursively bundled
/// contents, then `[ ... ]` spans fold into list tokens the same way; a
/// sequence with no matched pair is left as it stands.
pub open spec fn spec_bundle(m: Seq<SpecToken>) -> Seq<SpecToken>
    decreases m.len(),
{
    match spec_special_pairs(m, "{"@, "}"@) {
        Some(p) => {
            if 0 <= p.0 < p.1 < m.len() {
                spec_bundle(
                    m.subrange(0, p.0) + seq![
                        SpecToken::Group(spec_bundle(m.subrange(p.0 + 1, p.1))),
                    ] + m.subrange(p.1 + 1, m.len() as int),
                )
            } else {
                m
            }
        },
        None => match spec_special_pairs(m, "["@, "]"@) {
            Some(p) => {
                if 0 <= p.0 < p.1 < m.len() {
                    spec_bundle(
                        m.subrange(0, p.0) + seq![
                            SpecToken::List(spec_bundle(m.subrange(p.0 + 1, p.1))),
                        ] + m.subrange(p.1 + 1, m.len() as int),
                    )
                } else {
                    m
                }
            },
            None => m,
        },
    }
}

/// Bundling reaches a fixpoint: running the pass on an already bundled
/// statement changes nothing.
pub proof fn lemma_bundle_idempotent(m: Seq<SpecToken>)
    ensures
        spec_bundle(spec_bundle(m)) == spec_bundle(m),
    decreases m.len(),
{
    match spec_special_pairs(m, "{"@, "}"@) {
        Some(p) => {
            if 0 <= p.0 < p.1 < m.len() {
                lemma_bundle_idempotent(
                    m.subrange(0, p.0) + seq![
                        SpecToken::Group(spec_bundle(m.subrange(p.0 + 1, p.1))),
                    ] + m.subrange(p.1 + 1, m.len() as int),
                );
            }
        },
        None => {
            match spec_special_pairs(m, "["@, "]"@) {
                Some(p) => {
                    if 0 <= p.0 < p.1 < m.len() {
                        lemma_bundle_idempotent(
                            m.subrange(0, p.0) + seq![
                                SpecToken::List(spec_bundle(m.subrange(p.0 + 1, p.1))),
                            ] + m.subrange(p.1 + 1, m.len() as int),
                        );
                    }
                },
                None => {},
            }
        },
    }
}

/// The structural bundling pass: each balanced `{ ... }` span folds into a
/// single group token and each `[ ... ]` span into a single list token,
/// recursively inside nested brackets. A sequence without bracket markers
/// comes back unchanged.
pub fn bundle(v: &Vec<Token>) -> (r: Vec<Token>)
    ensures
        token_models(r) == spec_bundle(token_models(*v)),
        (forall|i: int|
            0 <= i < v@.len() ==> (#[trigger] token_models(*v)[i]) != SpecToken::Special("{"@)
                && token_models(*v)[i] != SpecToken::Special("}"@) && token_models(*v)[i]
                != SpecToken::Special("["@) && token_models(*v)[i] != SpecToken::Special(
                "]"@,
            )) ==> token_models(r) == token_models(*v),
    decreases v@.len(),
{
    let ghost m = token_models(*v);
    if let Some((x, y)) = special_pairs(v, "{", "}") {
        let n = v.len();
        proof {
            assert(x < y && y < n);
        }
        let inner = slice_tokens(v, x + 1, y);
        let bundled_inner = bundle(&inner);
        let mut rebuilt = slice_tokens(v, 0, x);
        let ghost head = token_models(rebuilt);
        rebuilt.push(Token::Group(bundled_inner));
        let mut rest = slice_tokens(v, y + 1, n);
        rebuilt.append(&mut rest);
        proof {
            assert(m[x as int] == SpecToken::Special("{"@));
            assert(token_models(rebuilt) =~= m.subrange(0, x as int) + seq![
                SpecToken::Group(spec_bundle(m.subrange(x + 1 as int, y as int))),
            ] + m.subrange(y + 1 as int, m.len() as int));
            assert(rebuilt@.len() < v@.len());
        }
        return bundle(&rebuilt);
    }
    if let Some((x, y)) = special_pairs(v, "[", "]") {
        let n = v.len();
        proof {
            assert(x < y && y < n);
        }
        let inner = slice_tokens(v, x + 1, y);
        let bundled_inner = bundle(&inner);
        let mut rebuilt = slice_tokens(v, 0, x);
        rebuilt.push(Token::List(bundled_inner));
        let mut rest = slice_tokens(v, y + 1, n);
        rebuilt.append(&mut rest);
        proof {
            assert(m[x as int] == SpecToken::Special("["@));
            assert(token_models(rebuilt) =~= m.subrange(0, x as int) + seq![
                SpecToken::List(spec_bundle(m.subrange(x + 1 as int, y as int))),
            ] + m.subrange(y + 1 as int, m.len() as int));
            assert(rebuilt@.len() < v@.len());
        }
        return bundle(&rebuilt);
    }
    proof {
        assert(spec_bundle(m) == m);
        if forall|i: int| 0 <= i < m.len() ==> !((#[trigger] m[i]) is Special) {
        }
    }
    duplicate_tokens(v)
}

/// Deep copy of `v[lo..hi]`.
pub fn slice_tokens(v: &Vec<Token>, lo: usize, hi: usize) -> (r: Vec<Token>)
    requires
        lo <= hi <= v@.len(),
    ensures
        r@.len() == hi - lo,
        token_models(r) == token_models(*v).subrange(lo as int, hi as int),
{
    let ghost m = token_models(*v);
    let mut out: Vec<Token> = Vec::new();
    let mut k: usize = lo;
    while k < hi
        invariant
            lo <= k <= hi <= v@.len(),
            m == token_models(*v),
            m.len() == v@.len(),
            out@.len() == k - lo,
            forall|j: int| 0 <= j < k - lo ==> (#[trigger] out@[j].deep_view()) == m[lo + j],
        decreases hi - k,
    {
        out.push(v[k].duplicate());
        k = k + 1;
    }
    proof {
        assert forall|j: int|
            0 <= j < hi - lo implies token_models(out)[j] == m.subrange(lo as int, hi as int)[j] by {
            assert(out@[j].deep_view() == m[lo + j]);
        }
        assert(token_models(out) =~= m.subrange(lo as int, hi as int));
    }
    out
}

/// Strips one pair of parenthesis markers from the ends of a sequence,
/// when both ends are bracket markers and the parenthesis count balances.
pub fn skin_content(v: &mut Vec<Token>)
    ensures
        token_models(*final(v)) == (if spec_skinnable(token_models(*old(v))) {
            token_models(*old(v)).subrange(1, token_models(*old(v)).len() - 1)
        } else {
            token_models(*old(v))
        }),
{
    let ghost m = token_models(*v);
    let skinnable = check_skinnable(v);
    if skinnable {
        let _ = v.remove(0);
        let _ = v.pop();
        proof {
            assert(token_models(*v) =~= m.subrange(1, m.len() - 1));
        }
    }
}

/// Both ends are bracket markers and the parenthesis markers balance.
pub open spec fn spec_skinnable(m: Seq<SpecToken>) -> bool {
    &&& m.len() >= 2
    &&& m[0] is Special
    &&& m[m.len() - 1] is Special
    &&& spec_paren_count(m, m.len() as int) == 0
}

/// The running count of `(` markers minus `)` markers in `m[..upto]`.
pub open spec fn spec_paren_count(m: Seq<SpecToken>, upto: int) -> int
    decreases upto,
{
    if upto <= 0 {
        0
    } else {
        spec_paren_count(m, upto - 1) + (if m[upto - 1] == SpecToken::Special("("@) {
            1int
        } else if m[upto - 1] == SpecToken::Special(")"@) {
            -1int
        } else {
            0int
        })
    }
}

fn check_skinnable(v: &Vec<Token>) -> (r: bool)
    ensures
        r == spec_skinnable(token_models(*v)),
{
    let ghost m = token_models(*v);
    if v.len() < 2 {
        return false;
    }
    let ends = matches!(&v[0], Token::Special(_)) && matches!(&v[v.len() - 1], Token::Special(_));
    proof {
        assert(m[0] == v[0 as int].deep_view());
        assert(m[m.len() - 1] == v[v@.len() - 1].deep_view());
    }
    if !ends {
        return false;
    }
    let mut acc: i128 = 0;
    let mut i: usize = 0;
    while i < v.len()
        invariant
            i <= v.len(),
            m == token_models(*v),
            m.len() == v@.len(),
            acc as int == spec_paren_count(m, i as int),
            -(i as int) <= acc as int <= i as int,
            m.len() >= 2 && m[0] is Special && m[m.len() - 1] is Special,
        decreases v.len() - i,
    {
        let delta: i128 = match &v[i] {
            Token::Special(s) => {
                if word_eq(s.as_str(), "(") {
                    1
                } else if word_eq(s.as_str(), ")") {
                    -1
                } else {
                    0
                }
            },
            _ => 0,
        };
        proof {
            assert(m[i as int] == v[i as int].deep_view());
            reveal_strlit("(");
            reveal_strlit(")");
            assert("("@[0] == '(' && ")"@[0] == ')');
        }
        acc = acc + delta;
        i = i + 1;
    }
    acc == 0
}

/// Deep copy of a case table.
pub fn duplicate_cases(cases: &Vec<crate::Case>) -> (r: Vec<crate::Case>)
    ensures
        r.deep_view() == cases.deep_view(),
{
    let mut out: Vec<crate::Case> = Vec::new();
    let mut i: usize = 0;
    while i < cases.len()
        invariant
            i <= cases.len(),
            out@.len() == i,
            forall|j: int|
                0 <= j < i ==> (#[trigger] out@[j].deep_view()) == cases@[j].deep_view(),
        decreases cases.len() - i,
    {
        let p = duplicate_tokens(&cases[i].0);
        let c = duplicate_tokens(&cases[i].1);
        out.push((p, c));
        proof {
            crate::lemma_token_models_is_deep_view(cases@[i as int].0);
            crate::lemma_token_models_is_deep_view(cases@[i as int].1);
            crate::lemma_token_models_is_deep_view(out@[i as int].0);
            crate::lemma_token_models_is_deep_view(out@[i as int].1);
        }
        i = i + 1;
    }
    proof {
        assert forall|j: int|
            0 <= j < cases@.len() implies out.deep_view()[j] == cases.deep_view()[j] by {
            crate::lemma_vec_deep_view_index(out, j);
            crate::lemma_vec_deep_view_index(*cases, j);
        }
        assert(out.deep_view() =~= cases.deep_view());
    }
    out
}

} // verus!
