use wlang::diagnostics::Span;
use wlang::lexer::LexerToken;
use wlang::utils::{
    as_nums, bundle, convert, encode_string, get_par, highest, literal, literal_enumerate,
    skin_content, special_pairs, type_of, value_string,
};
use wlang::{Range, State, Token};

fn v(n: i64) -> Token {
    Token::Value(n)
}

#[test]
fn value_string_renders_decimals() {
    assert_eq!(value_string(0), "0");
    assert_eq!(value_string(7), "7");
    assert_eq!(value_string(120), "120");
    assert_eq!(value_string(-45), "-45");
    assert_eq!(value_string(i64::MIN), "-9223372036854775808");
    assert_eq!(value_string(i64::MAX), "9223372036854775807");
}

#[test]
fn type_of_reports_variant_names() {
    assert_eq!(type_of(&v(1)), "Value");
    assert_eq!(type_of(&Token::Atom("a".to_string())), "Atom");
    assert_eq!(type_of(&Token::Group(vec![])), "Group");
    assert_eq!(type_of(&Token::List(vec![])), "List");
    assert_eq!(type_of(&Token::Null), "Null");
}

#[test]
fn convert_renders_tokens_back_to_source() {
    assert_eq!(convert(&v(3)), "3");
    assert_eq!(convert(&Token::Atom("plus".to_string())), ":plus");
    assert_eq!(convert(&Token::FunctionLiteral("add".to_string())), "`add`");
    assert_eq!(convert(&Token::List(vec![v(1), v(2)])), "[1 2]");
    assert_eq!(convert(&Token::Group(vec![v(1), v(2)])), "{1 2}");
    // a group of characters is a string and renders as its text
    assert_eq!(convert(&Token::Group(vec![Token::Char('h'), Token::Char('i')])), "hi");
    assert_eq!(convert(&Token::Parameter(Range::Full { start: 2, end: 2 })), "$2");
    assert_eq!(convert(&Token::Parameter(Range::From { start: 1 })), "$1..");
}

#[test]
fn literal_joins_with_spaces() {
    assert_eq!(literal(&vec![v(1), Token::Atom("a".to_string()), v(2)]), "1 :a 2");
    assert_eq!(literal(&vec![]), "");
}

#[test]
fn literal_enumerate_reports_spans() {
    let (text, spans) = literal_enumerate(&vec![v(10), v(200), v(3)]);
    assert_eq!(text, "10 200 3");
    assert_eq!(spans.len(), 3);
    assert_eq!((spans[0].start, spans[0].end), (0, 2));
    assert_eq!((spans[1].start, spans[1].end), (3, 6));
    assert_eq!((spans[2].start, spans[2].end), (7, 8));
}

#[test]
fn encode_string_makes_char_groups() {
    let t = encode_string("ab");
    assert_eq!(t, Token::Group(vec![Token::Char('a'), Token::Char('b')]));
}

#[test]
fn as_nums_reads_values_and_defaults_to_one() {
    let nums = as_nums(&vec![v(4), Token::Atom("x".to_string()), v(-2)]);
    assert_eq!(nums, vec![4, 1, -2]);
}

#[test]
fn special_pairs_finds_matching_brackets() {
    let sp = |s: &str| Token::Special(s.to_string());
    let toks = vec![v(1), sp("{"), v(2), sp("{"), v(3), sp("}"), sp("}"), v(4)];
    assert_eq!(special_pairs(&toks, "{", "}"), Some((1, 6)));
    assert_eq!(special_pairs(&toks, "[", "]"), None);
}

#[test]
fn bundle_folds_bracket_spans() {
    let sp = |s: &str| Token::Special(s.to_string());
    let toks = vec![v(1), sp("{"), v(2), v(3), sp("}"), sp("["), v(4), sp("]")];
    let bundled = bundle(&toks);
    assert_eq!(
        bundled,
        vec![v(1), Token::Group(vec![v(2), v(3)]), Token::List(vec![v(4)])]
    );
}

#[test]
fn bundle_handles_nesting() {
    let sp = |s: &str| Token::Special(s.to_string());
    let toks = vec![sp("{"), v(1), sp("{"), v(2), sp("}"), sp("}")];
    let bundled = bundle(&toks);
    assert_eq!(bundled, vec![Token::Group(vec![v(1), Token::Group(vec![v(2)])])]);
}

#[test]
fn bundle_leaves_plain_statements_alone() {
    let toks = vec![v(1), Token::Atom("a".to_string())];
    assert_eq!(bundle(&toks), toks);
}

#[test]
fn skin_content_strips_balanced_ends() {
    let sp = |s: &str| Token::Special(s.to_string());
    let mut toks = vec![sp("("), v(1), sp(")")];
    skin_content(&mut toks);
    assert_eq!(toks, vec![v(1)]);
    let mut unbalanced = vec![sp("("), v(1), sp("(")];
    skin_content(&mut unbalanced);
    assert_eq!(unbalanced.len(), 3);
}

#[test]
fn highest_reports_selector_arity() {
    assert_eq!(highest(&vec![v(1)]), 0);
    assert_eq!(highest(&vec![Token::Parameter(Range::Full { start: 0, end: 0 })]), 1);
    assert_eq!(highest(&vec![Token::Parameter(Range::Full { start: 1, end: 2 })]), 3);
    assert_eq!(highest(&vec![Token::Parameter(Range::From { start: 1 })]), 2);
    assert_eq!(highest(&vec![Token::Parameter(Range::To { end: 2 })]), 2);
    // the scan recurses into nested groups
    assert_eq!(
        highest(&vec![Token::Group(vec![Token::Parameter(Range::Full { start: 4, end: 4 })])]),
        5
    );
}

#[test]
fn resolve_slices_ranges_in_textual_order() {
    let state = State::new();
    // operands arrive nearest-first from extraction: [30, 20, 10] means
    // the textual order was 10 20 30
    let ops = vec![v(30), v(20), v(10)];
    let body = vec![Token::Parameter(Range::Full { start: 0, end: 1 })];
    assert_eq!(state.resolve(&body, &ops), vec![v(10), v(20)]);
    let open_end = vec![Token::Parameter(Range::From { start: 1 })];
    assert_eq!(state.resolve(&open_end, &ops), vec![v(20), v(30)]);
    let open_start = vec![Token::Parameter(Range::To { end: 2 })];
    assert_eq!(state.resolve(&open_start, &ops), vec![v(10), v(20)]);
    // substitution reaches into nested groups and keeps other tokens
    let nested = vec![
        v(7),
        Token::Group(vec![Token::Parameter(Range::Full { start: 2, end: 2 })]),
    ];
    assert_eq!(state.resolve(&nested, &ops), vec![v(7), Token::Group(vec![v(30)])]);
}

#[test]
fn extraction_pops_nearest_first() {
    let state = State::new();
    let mut stack = vec![v(1), v(2), v(3)];
    let reference = vec![v(1), v(2), v(3), Token::Function("add".to_string())];
    let got = get_par(&mut stack, &Token::Function("add".to_string()), &reference, &state)
        .expect("well-typed call extracts");
    assert_eq!(got, vec![v(3), v(2)]);
    assert_eq!(stack, vec![v(1)]);
}

#[test]
fn extraction_reports_unknown_primitive() {
    let state = State::new();
    let mut stack = vec![v(1)];
    let reference = vec![v(1)];
    let err = get_par(&mut stack, &Token::Function("no_such".to_string()), &reference, &state)
        .unwrap_err();
    assert_eq!(err.message, "Unknown Function");
}

#[test]
fn equality_compares_comparable_tokens() {
    let mut state = State::new();
    const FUEL: u64 = 1000;
    let one = state
        .eval(vec![Token::Atom("a".to_string()), Token::Atom("a".to_string()),
                   Token::Function("eq".to_string())], FUEL)
        .unwrap();
    assert_eq!(one, vec![v(1)]);
    let zero = state
        .eval(vec![v(1), v(2), Token::Function("eq".to_string())], FUEL)
        .unwrap();
    assert_eq!(zero, vec![v(0)]);
    let err = state
        .eval(vec![v(1), Token::Atom("a".to_string()), Token::Function("eq".to_string())], FUEL)
        .unwrap_err();
    assert_eq!(err.message, "Incomparable Values");
}

#[test]
fn head_tail_reverse_iterate() {
    let mut state = State::new();
    const FUEL: u64 = 1000;
    let g = Token::Group(vec![v(1), v(2), v(3)]);
    assert_eq!(state.eval(vec![g.duplicate(), Token::Function("head".to_string())], FUEL).unwrap(), vec![v(1)]);
    assert_eq!(
        state.eval(vec![g.duplicate(), Token::Function("tail".to_string())], FUEL).unwrap(),
        vec![Token::Group(vec![v(2), v(3)])]
    );
    assert_eq!(
        state.eval(vec![g.duplicate(), Token::Function("reverse".to_string())], FUEL).unwrap(),
        vec![Token::Group(vec![v(3), v(2), v(1)])]
    );
    assert_eq!(
        state.eval(vec![Token::Group(vec![]), Token::Function("head".to_string())], FUEL).unwrap(),
        vec![Token::Null]
    );
    let err = state
        .eval(vec![Token::Group(vec![]), Token::Function("tail".to_string())], FUEL)
        .unwrap_err();
    assert_eq!(err.message, "Empty Aggregate");
}

#[test]
fn wrapping_arithmetic() {
    let mut state = State::new();
    const FUEL: u64 = 1000;
    let wrapped = state
        .eval(vec![v(i64::MAX), v(1), Token::Function("add".to_string())], FUEL)
        .unwrap();
    assert_eq!(wrapped, vec![v(i64::MIN)]);
    let wrapped_mul = state
        .eval(vec![v(i64::MAX), v(2), Token::Function("mul".to_string())], FUEL)
        .unwrap();
    assert_eq!(wrapped_mul, vec![v(-2)]);
}

#[test]
fn type_primitive_encodes_tag() {
    let mut state = State::new();
    let got = state
        .eval(vec![v(1), Token::Function("type".to_string())], 1000)
        .unwrap();
    assert_eq!(got, vec![encode_string("Value")]);
}

#[test]
fn state_insert_and_get() {
    let mut state = State::new();
    let cases = vec![(vec![v(1)], vec![v(9)])];
    state.insert("p".to_string(), cases);
    assert!(state.get("p").is_some());
    assert!(state.get("q").is_none());
    let span = Span { start: 0, end: 1 };
    assert_eq!(span.start, 0);
}

#[test]
fn fold_step_with_no_value_reports() {
    // a fold whose step consumes everything and produces nothing
    let mut state = State::new();
    let tokens = vec![
        Token::List(vec![v(1), v(2)]),
        Token::Function("iter".to_string()),
        Token::List(vec![
            Token::Function("axe".to_string()),
            Token::Function("axe".to_string()),
        ]),
        Token::Function("lambda".to_string()),
        v(0),
        Token::Function("foldr".to_string()),
    ];
    let err = state.eval(tokens, 10_000).unwrap_err();
    assert_eq!(err.message, "Empty Evaluation");
}

#[test]
fn predicate_output_is_discarded() {
    let sp = |tok: LexerToken| (tok, Span { start: 0, end: 0 });
    // a guard whose predicate prints: the print happens against a scratch
    // copy of the state and leaves no trace in the program output
    let code = vec![
        sp(LexerToken::BooleanGuard("noisy".to_string())),
        sp(LexerToken::GuardOption(
            vec![
                sp(LexerToken::Token(v(7))),
                sp(LexerToken::Function("OUTPUT".to_string())),
                sp(LexerToken::Token(v(0))),
            ],
            vec![sp(LexerToken::Token(v(1)))],
        )),
        sp(LexerToken::GuardDefault(vec![sp(LexerToken::Token(v(2)))])),
        sp(LexerToken::Newline),
        sp(LexerToken::Token(v(5))),
        sp(LexerToken::Function("noisy".to_string())),
    ];
    let mut state = State::new();
    let result = state.apply(&code, "noisy", 100_000).expect("run");
    // the guard takes no operands, so the 5 survives beside the default
    assert_eq!(result, vec![vec![v(5), v(2)]]);
    assert_eq!(state.out, Vec::<String>::new());
}
