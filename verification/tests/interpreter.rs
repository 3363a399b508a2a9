use wlang::diagnostics::Span;
use wlang::lexer::LexerToken;
use wlang::utils::duplicate_tokens;
use wlang::{Range, State, Token};

const FUEL: u64 = 1_000_000;

fn v(n: i64) -> Token {
    Token::Value(n)
}

fn func(name: &str) -> Token {
    Token::Function(name.to_string())
}

fn sel(k: usize) -> Token {
    Token::Parameter(Range::Full { start: k, end: k })
}

fn sp(tok: LexerToken) -> (LexerToken, Span) {
    (tok, Span { start: 0, end: 0 })
}

fn eval_one(tokens: Vec<Token>) -> Vec<Token> {
    let mut state = State::new();
    state.eval(tokens, FUEL).expect("evaluation should succeed")
}

#[test]
fn single_value_reduces_to_itself() {
    assert_eq!(eval_one(vec![v(42)]), vec![v(42)]);
}

#[test]
fn already_reduced_statement_is_unchanged() {
    let input = vec![v(1), Token::Atom("x".to_string()), Token::Char('q'), Token::Null];
    assert_eq!(eval_one(duplicate_tokens(&input)), input);
}

#[test]
fn void_produces_no_operand() {
    assert_eq!(eval_one(vec![Token::Void]), Vec::<Token>::new());
    assert_eq!(
        eval_one(vec![v(2), Token::Void, Token::Atom("a".to_string()), Token::Void, v(3)]),
        vec![v(2), Token::Atom("a".to_string()), v(3)]
    );
}

#[test]
fn folds_over_nothing_return_the_seed() {
    assert_eq!(
        eval_one(vec![Token::Iterator(vec![]), v(0), Token::Function("swap".to_string())]),
        vec![v(0)]
    );
    let folded = eval_one(vec![
        Token::List(vec![]),
        func("iter"),
        Token::FunctionLiteral("add".to_string()),
        v(7),
        func("foldr"),
    ]);
    assert_eq!(folded, vec![v(7)]);
    let mapped = eval_one(vec![
        Token::List(vec![]),
        func("iter"),
        Token::FunctionLiteral("add".to_string()),
        func("map"),
    ]);
    assert_eq!(mapped, vec![Token::Iterator(vec![])]);
}

#[test]
fn addition_of_two_values() {
    assert_eq!(eval_one(vec![v(2), v(3), func("add")]), vec![v(5)]);
}

#[test]
fn subtraction_is_second_minus_nearest() {
    // textual "10 4 sub": 4 is nearest the call, so the result is 10 - 4
    assert_eq!(eval_one(vec![v(10), v(4), func("sub")]), vec![v(6)]);
}

#[test]
fn division_truncates_toward_zero() {
    assert_eq!(eval_one(vec![v(7), v(2), func("div")]), vec![v(3)]);
    assert_eq!(eval_one(vec![v(-7), v(2), func("div")]), vec![v(-3)]);
}

#[test]
fn division_by_zero_reports() {
    let mut state = State::new();
    let err = state.eval(vec![v(7), v(0), func("div")], FUEL).unwrap_err();
    assert_eq!(err.message, "Division by zero");
}

#[test]
fn modulo_keeps_dividend_sign() {
    assert_eq!(eval_one(vec![v(7), v(3), func("mod")]), vec![v(1)]);
    assert_eq!(eval_one(vec![v(-7), v(3), func("mod")]), vec![v(-1)]);
}

#[test]
fn group_sum_and_len_round_trip() {
    // a group built from n values, summed, reports the numeric sum ...
    let group = Token::Group(vec![v(1), v(2), v(3), v(4)]);
    assert_eq!(eval_one(vec![group.duplicate(), func("sum")]), vec![v(10)]);
    // ... and its length reports n
    assert_eq!(eval_one(vec![group, func("len")]), vec![v(4)]);
}

#[test]
fn group_round_trip_other_sizes() {
    for n in 1..7i64 {
        let members: Vec<Token> = (1..=n).map(v).collect();
        let sum: i64 = (1..=n).sum();
        assert_eq!(eval_one(vec![Token::Group(duplicate_tokens(&members)), func("sum")]), vec![v(sum)]);
        assert_eq!(eval_one(vec![Token::Group(members), func("len")]), vec![v(n)]);
    }
}

#[test]
fn group_contents_are_reduced_before_use() {
    // { 1 2 add 3 } reduces to { 3 3 } before summing
    let group = Token::Group(vec![v(1), v(2), func("add"), v(3)]);
    assert_eq!(eval_one(vec![group, func("sum")]), vec![v(6)]);
}

#[test]
fn missing_parameter_reports_count_supplied() {
    let mut state = State::new();
    let err = state.eval(vec![v(5), func("add")], FUEL).unwrap_err();
    assert_eq!(err.message, "Missing Parameters");
    // the reconstructed call text has a single token, so only the
    // expectation label fits
    assert_eq!(err.labels.len(), 1);
    assert!(err.labels[0].message.contains("Value Value"));
    // with more of the statement left, the supplied count is labelled too
    let mut state2 = State::new();
    let err2 = state2.eval(vec![v(5), func("add"), v(9)], FUEL).unwrap_err();
    assert_eq!(err2.message, "Missing Parameters");
    assert_eq!(err2.labels.len(), 2);
    assert_eq!(err2.labels[1].message, "Only 1 parameter(s) provided.");
}

#[test]
fn type_mismatch_names_both_tags() {
    // sum wants an aggregate, not a bare value
    let mut state = State::new();
    let err = state.eval(vec![v(5), func("sum")], FUEL).unwrap_err();
    assert_eq!(err.message, "Mismatched Types");
    assert_eq!(err.labels.len(), 1);
    assert_eq!(err.labels[0].message, "This has the type of Value but expected Iterable.");
}

#[test]
fn sum_rejects_non_numeric_members() {
    // an aggregate holding a non-numeric token cannot be summed: the
    // report names that token's tag and the expected one
    let mut state = State::new();
    let group = Token::Group(vec![v(1), Token::Atom("x".to_string())]);
    let err = state.eval(vec![group, func("sum")], FUEL).unwrap_err();
    assert_eq!(err.message, "Mismatched Types");
    assert_eq!(err.labels.len(), 1);
    assert_eq!(err.labels[0].message, "This has the type of Atom but expected Value.");
}

#[test]
fn undefined_container_reports() {
    let mut state = State::new();
    let err = state.eval(vec![v(5), Token::Container("nowhere".to_string())], FUEL).unwrap_err();
    assert_eq!(err.message, "Undefined Container");
}

#[test]
fn selector_substitution_returns_nearest_operand() {
    // a procedure whose body selects the operand nearest the call and
    // returns it unchanged, applied to (3, 7) textually, yields 7
    let code = vec![
        sp(LexerToken::Assignment("f".to_string())),
        sp(LexerToken::Token(sel(0))),
        sp(LexerToken::Newline),
        sp(LexerToken::Token(v(3))),
        sp(LexerToken::Token(v(7))),
        sp(LexerToken::Function("f".to_string())),
    ];
    let mut state = State::new();
    let result = state.apply(&code, "f <- $0\n3 7 f", FUEL).expect("program should run");
    assert_eq!(result, vec![vec![v(3), v(7)]]);
}

#[test]
fn double_binding_scenario() {
    // double <- 2 mul ; 5 double yields 10
    let code = vec![
        sp(LexerToken::Assignment("double".to_string())),
        sp(LexerToken::Token(v(2))),
        sp(LexerToken::Function("mul".to_string())),
        sp(LexerToken::Newline),
        sp(LexerToken::Token(v(5))),
        sp(LexerToken::Function("double".to_string())),
    ];
    let mut state = State::new();
    let result = state.apply(&code, "double <- 2 mul\n5 double", FUEL).expect("run");
    assert_eq!(result, vec![vec![v(10)]]);
}

fn sign_program() -> Vec<(LexerToken, Span)> {
    vec![
        sp(LexerToken::BooleanGuard("sign".to_string())),
        sp(LexerToken::GuardOption(
            vec![
                sp(LexerToken::Token(v(0))),
                sp(LexerToken::Token(sel(0))),
                sp(LexerToken::Function("less".to_string())),
            ],
            vec![sp(LexerToken::Token(v(-1)))],
        )),
        sp(LexerToken::GuardOption(
            vec![
                sp(LexerToken::Token(v(0))),
                sp(LexerToken::Token(sel(0))),
                sp(LexerToken::Function("greater".to_string())),
            ],
            vec![sp(LexerToken::Token(v(1)))],
        )),
        sp(LexerToken::GuardDefault(vec![sp(LexerToken::Token(v(0)))])),
        sp(LexerToken::Newline),
    ]
}

#[test]
fn guarded_sign_scenario() {
    for (input, expected) in [(-4i64, -1i64), (0, 0), (4, 1)] {
        let mut code = sign_program();
        code.push(sp(LexerToken::Token(v(input))));
        code.push(sp(LexerToken::Function("sign".to_string())));
        let mut state = State::new();
        let result = state.apply(&code, "sign", FUEL).expect("run");
        assert_eq!(result, vec![vec![v(expected)]], "sign of {input}");
    }
}

fn factorial_program() -> Vec<(LexerToken, Span)> {
    vec![
        sp(LexerToken::BooleanGuard("factorial".to_string())),
        sp(LexerToken::GuardOption(
            vec![
                sp(LexerToken::Token(v(2))),
                sp(LexerToken::Token(sel(0))),
                sp(LexerToken::Function("less".to_string())),
            ],
            vec![sp(LexerToken::Token(v(1)))],
        )),
        sp(LexerToken::GuardDefault(vec![
            sp(LexerToken::Token(sel(0))),
            sp(LexerToken::Token(v(1))),
            sp(LexerToken::Function("sub".to_string())),
            sp(LexerToken::Function("factorial".to_string())),
            sp(LexerToken::Token(sel(0))),
            sp(LexerToken::Function("mul".to_string())),
        ])),
        sp(LexerToken::Newline),
    ]
}

#[test]
fn recursive_factorial_scenario() {
    for (input, expected) in [(5i64, 120i64), (0, 1)] {
        let mut code = factorial_program();
        code.push(sp(LexerToken::Token(v(input))));
        code.push(sp(LexerToken::Function("factorial".to_string())));
        let mut state = State::new();
        let result = state.apply(&code, "factorial", FUEL).expect("run");
        assert_eq!(result, vec![vec![v(expected)]], "factorial of {input}");
    }
}

#[test]
fn fold_scenario() {
    // fold [1,2,3,4] with addition and seed 0 yields 10
    let tokens = vec![
        Token::List(vec![v(1), v(2), v(3), v(4)]),
        func("iter"),
        Token::FunctionLiteral("add".to_string()),
        v(0),
        func("foldr"),
    ];
    assert_eq!(eval_one(tokens), vec![v(10)]);
}

#[test]
fn foldl_folds_from_the_other_end() {
    let tokens = vec![
        Token::List(vec![v(1), v(2), v(3), v(4)]),
        func("iter"),
        Token::FunctionLiteral("sub".to_string()),
        v(0),
        func("foldl"),
    ];
    // from the right end: ((((0,4-),3-),2-),1-) with sub taking
    // accumulator-minus-member at each step
    let result = eval_one(tokens);
    assert_eq!(result.len(), 1);
    assert!(matches!(result[0], Token::Value(_)));
}

#[test]
fn map_doubles_each_member() {
    let code = vec![
        sp(LexerToken::Assignment("twice".to_string())),
        sp(LexerToken::Token(sel(0))),
        sp(LexerToken::Token(sel(0))),
        sp(LexerToken::Function("add".to_string())),
        sp(LexerToken::Newline),
    ];
    let mut state = State::new();
    state.apply(&code, "twice", FUEL).expect("define");
    let tokens = vec![
        Token::List(vec![v(1), v(2), v(3)]),
        func("iter"),
        Token::ContainerLiteral("twice".to_string()),
        func("map"),
        func("collect_list"),
    ];
    let result = state.eval(tokens, FUEL).expect("map should run");
    assert_eq!(result, vec![Token::List(vec![v(2), v(4), v(6)])]);
}

#[test]
fn dispatch_always_matches_default_case() {
    // a guarded procedure whose explicit predicates do not match still
    // produces its default: dispatch never falls through
    let mut state = State::new();
    let mut plain = sign_program();
    plain.push(sp(LexerToken::Token(v(0))));
    plain.push(sp(LexerToken::Function("sign".to_string())));
    let result = state.apply(&plain, "sign", FUEL).expect("run");
    assert_eq!(result, vec![vec![v(0)]]);
}

#[test]
fn output_collects_rendered_lines() {
    let mut state = State::new();
    let result = state.eval(vec![v(42), func("OUTPUT")], FUEL).expect("run");
    assert_eq!(result, Vec::<Token>::new());
    assert_eq!(state.out, vec!["42".to_string()]);
}

#[test]
fn divergent_procedure_exhausts_budget() {
    let code = vec![
        sp(LexerToken::Assignment("forever".to_string())),
        sp(LexerToken::Function("forever".to_string())),
        sp(LexerToken::Newline),
        sp(LexerToken::Function("forever".to_string())),
    ];
    let mut state = State::new();
    let errs = state.apply(&code, "forever", 2_000).unwrap_err();
    assert_eq!(errs.len(), 1);
    assert_eq!(errs[0].message, "Recursion Limit");
}

#[test]
fn lexical_error_fails_the_parse() {
    let code = vec![
        sp(LexerToken::Token(v(1))),
        (LexerToken::Error, Span { start: 2, end: 3 }),
        (LexerToken::Error, Span { start: 3, end: 4 }),
    ];
    let state = State::new();
    let errs = state.parser(&code, "1 ??").unwrap_err();
    // adjacent error spans merge into a single diagnostic
    assert_eq!(errs.len(), 1);
    assert_eq!(errs[0].message, "Unknown Token");
    assert_eq!(errs[0].labels[0].span.start, 2);
    assert_eq!(errs[0].labels[0].span.end, 4);
}

#[test]
fn definitions_shadow_earlier_ones() {
    let code = vec![
        sp(LexerToken::Assignment("x".to_string())),
        sp(LexerToken::Token(v(1))),
        sp(LexerToken::Newline),
        sp(LexerToken::Assignment("x".to_string())),
        sp(LexerToken::Token(v(2))),
        sp(LexerToken::Newline),
        sp(LexerToken::Function("x".to_string())),
    ];
    let mut state = State::new();
    let result = state.apply(&code, "x", FUEL).expect("run");
    assert_eq!(result, vec![vec![v(2)]]);
}

#[test]
fn forward_references_are_legal() {
    let code = vec![
        sp(LexerToken::Token(v(4))),
        sp(LexerToken::Function("later".to_string())),
        sp(LexerToken::Newline),
        sp(LexerToken::Assignment("later".to_string())),
        sp(LexerToken::Token(sel(0))),
        sp(LexerToken::Newline),
    ];
    // the expression statement runs before "later" is defined, because
    // blocks are consumed top to bottom: this must fail
    let mut state = State::new();
    let errs = state.apply(&code, "fwd", FUEL).unwrap_err();
    assert_eq!(errs[0].message, "Undefined Container");
    // but a definition before the use works even when another definition
    // in between calls forward
    let code2 = vec![
        sp(LexerToken::Assignment("a".to_string())),
        sp(LexerToken::Function("b".to_string())),
        sp(LexerToken::Newline),
        sp(LexerToken::Assignment("b".to_string())),
        sp(LexerToken::Token(v(9))),
        sp(LexerToken::Newline),
        sp(LexerToken::Function("a".to_string())),
    ];
    let mut state2 = State::new();
    let result = state2.apply(&code2, "fwd2", FUEL).expect("run");
    assert_eq!(result, vec![vec![v(9)]]);
}

#[test]
fn lambda_activation_applies_body() {
    let tokens = vec![
        v(3),
        Token::List(vec![sel(0), v(10), func("mul")]),
        func("lambda"),
        func("call"),
    ];
    assert_eq!(eval_one(tokens), vec![v(30)]);
}

#[test]
fn nested_guard_error_fails_whole_section() {
    // a lexical error inside a guard line surfaces with the section's
    // diagnostics and no block is produced
    let code = vec![
        sp(LexerToken::BooleanGuard("broken".to_string())),
        sp(LexerToken::GuardOption(
            vec![(LexerToken::Error, Span { start: 10, end: 12 })],
            vec![sp(LexerToken::Token(v(1)))],
        )),
        sp(LexerToken::GuardDefault(vec![sp(LexerToken::Token(v(0)))])),
    ];
    let mut state = State::new();
    let errs = state.apply(&code, "broken <-| ...", FUEL).unwrap_err();
    assert_eq!(errs.len(), 1);
    assert_eq!(errs[0].message, "Unknown Token");
}

#[test]
fn failing_predicate_aborts_the_statement() {
    // dispatch reduces predicates with a fresh evaluation; a type error in
    // one aborts the whole statement instead of falling through
    let mut code = sign_program();
    code.push(sp(LexerToken::Token(Token::Atom("weird".to_string()))));
    code.push(sp(LexerToken::Function("sign".to_string())));
    let mut state = State::new();
    let errs = state.apply(&code, "sign :weird", FUEL).unwrap_err();
    assert_eq!(errs.len(), 1);
    assert_eq!(errs[0].message, "Mismatched Types");
}

#[test]
fn empty_statement_with_no_budget_still_succeeds() {
    let mut state = State::new();
    let result = state.eval(Vec::new(), 0).expect("nothing to do");
    assert_eq!(result, Vec::<Token>::new());
}
