use fup::fup::location::{error_text, locate, Location};
use fup::fup::index::{element_at, index_after, index_tree, index_until};
use fup::fup::operator::climb;
use fup::fup::syntax::{IndexRange, Operator};
use fup::fup::{parse_input_str, ParseError, ParseErrorKind};
use fup::grammar::GrammarTree;
use fup::lexer::{chars_of, lex, Token, TokenKind};
use fup::repl::{str_equal, MetaFlow, MetaHandler, ReplAction, ReplSession, REPL_PROMPT};

fn at(s: &'static str) -> GrammarTree<'static> {
    GrammarTree::Atom(s)
}

fn li(v: Vec<GrammarTree<'static>>) -> GrammarTree<'static> {
    GrammarTree::List(v)
}

fn parsed(input: &str) -> GrammarTree<'_> {
    match parse_input_str(input) {
        Ok(t) => t,
        Err(e) => panic!("{:?}", e),
    }
}

fn failure(input: &str) -> ParseError {
    match parse_input_str(input) {
        Ok(t) => panic!("parsed: {:?}", t),
        Err(e) => e,
    }
}

// Printing

#[test]
fn scheme_text_of_nested_lists() {
    let t = li(vec![li(vec![at("a"), li(vec![at("b"), at("c")])])]);
    assert_eq!(t.scheme_text(), "\n(a \n\t(b c)\n)");
}

#[test]
fn scheme_text_of_flat_list() {
    let t = li(vec![li(vec![at("f"), at("x")]), li(vec![])]);
    assert_eq!(t.scheme_text(), "\n(f x) ()");
}

#[test]
fn fmt_scheme_atom_adds_no_line_break() {
    let mut out = String::from("> ");
    let nl = at("x").fmt_scheme(&mut out, 3, "  ");
    assert!(!nl);
    assert_eq!(out, "> x");
}

#[test]
fn fmt_scheme_empty_list() {
    let mut out = String::new();
    let nl = li(vec![]).fmt_scheme(&mut out, 1, "  ");
    assert!(!nl);
    assert_eq!(out, "()");
}

#[test]
fn fmt_scheme_indents_by_depth() {
    let mut out = String::new();
    let nl = li(vec![at("a")]).fmt_scheme(&mut out, 2, "  ");
    assert!(nl);
    assert_eq!(out, "\n    (a)");
}

#[test]
fn fmt_scheme_closes_on_own_line_after_nested_list() {
    let mut out = String::new();
    let nl = li(vec![at("a"), li(vec![at("b")])]).fmt_scheme(&mut out, 0, "-");
    assert!(nl);
    assert_eq!(out, "\n(a \n-(b)\n)");
}

#[test]
fn fmt_scheme_top_level_of_atom() {
    let mut out = String::new();
    at("x").fmt_scheme_top_level(&mut out, "\t");
    assert_eq!(out, "x");
}

#[test]
fn fmt_scheme_top_level_skips_outer_parens() {
    let mut out = String::new();
    li(vec![li(vec![at("a")]), li(vec![at("b")])]).fmt_scheme_top_level(&mut out, "\t");
    assert_eq!(out, "\n(a)\n(b)");
}

#[test]
fn newline_flag_matches_text() {
    for t in [at("x"), li(vec![]), li(vec![at("y")]), li(vec![li(vec![]), at("z")])] {
        let mut out = String::new();
        let nl = t.fmt_scheme(&mut out, 0, " ");
        assert_eq!(nl, out.contains('\n'));
    }
}

#[test]
fn top_level_atoms_stay_apart() {
    assert_eq!(li(vec![at("a"), at("b")]).scheme_text(), "a b");
    assert_eq!(
        li(vec![at("a"), li(vec![at("b")]), li(vec![]), at("c")]).scheme_text(),
        "a\n(b) () c"
    );
}

// Scheme passes through

#[test]
fn top_level_names_round_trip() {
    let tree = li(vec![at("a"), at("b"), li(vec![at("f"), at("x")]), li(vec![]), at("c")]);
    assert_eq!(parsed(&tree.scheme_text()), tree);
}

#[test]
fn scheme_round_trip() {
    let input = "(define (f x) (g (h x) ()))\n(f 1)";
    let tree = parsed(input);
    let text = tree.scheme_text();
    assert_eq!(parsed(&text), tree);
}

#[test]
fn scheme_round_trip_with_spaces_as_indent() {
    let tree = li(vec![li(vec![at("a"), li(vec![at("b"), li(vec![at("c")])]), at("d")])]);
    let mut out = String::new();
    tree.fmt_scheme_top_level(&mut out, "    ");
    assert_eq!(parsed(&out), tree);
}

// Errors

#[test]
fn empty_input_is_empty_program() {
    assert_eq!(parsed(""), li(vec![]));
    assert_eq!(parsed("  ; only a comment\n"), li(vec![]));
}

#[test]
fn unterminated_string_is_lexical_error() {
    assert_eq!(
        failure("(a \"bc"),
        ParseError { kind: ParseErrorKind::Lexical, position: 3 }
    );
}

#[test]
fn lone_quote_is_lexical_error() {
    assert_eq!(failure("'"), ParseError { kind: ParseErrorKind::Lexical, position: 0 });
}

#[test]
fn stray_close_is_syntax_error() {
    assert_eq!(failure(")"), ParseError { kind: ParseErrorKind::Syntax, position: 0 });
    assert_eq!(failure("a )"), ParseError { kind: ParseErrorKind::Syntax, position: 2 });
}

#[test]
fn unclosed_list_is_syntax_error() {
    assert_eq!(failure("(a b"), ParseError { kind: ParseErrorKind::Syntax, position: 0 });
}

#[test]
fn index_number_too_large_is_syntax_error() {
    assert_eq!(
        failure("a[99999999999999999999999]"),
        ParseError { kind: ParseErrorKind::Syntax, position: 0 }
    );
    assert_eq!(
        failure("x\nb[1..99999999999999999999999]"),
        ParseError { kind: ParseErrorKind::Syntax, position: 2 }
    );
}

#[test]
fn bracket_word_that_is_no_range_is_list_literal() {
    assert_eq!(
        parsed("a[x]"),
        li(vec![at("a"), li(vec![at("list"), at("x")])])
    );
}

// Atoms

#[test]
fn strings_quotes_and_characters_are_atoms() {
    assert_eq!(
        parsed("(display \"a (b) c\" '(x \"y)\") #\\( 'z)"),
        li(vec![li(vec![
            at("display"),
            at("\"a (b) c\""),
            at("'(x \"y)\")"),
            at("#\\("),
            at("'z"),
        ])])
    );
}

// Operators

#[test]
fn tighter_operator_groups_first() {
    assert_eq!(
        parsed("a == b + c"),
        li(vec![li(vec![at("equal?"), at("a"), li(vec![at("+"), at("b"), at("c")])])])
    );
    assert_eq!(
        parsed("1 + 2 == 3"),
        li(vec![li(vec![at("equal?"), li(vec![at("+"), at("1"), at("2")]), at("3")])])
    );
}

#[test]
fn equality_between_comparison_and_logic() {
    assert_eq!(
        parsed("a < b == c < d"),
        li(vec![li(vec![
            at("equal?"),
            li(vec![at("<"), at("a"), at("b")]),
            li(vec![at("<"), at("c"), at("d")]),
        ])])
    );
    assert_eq!(
        parsed("a is b && c = 2 * d"),
        li(vec![li(vec![
            at("and"),
            li(vec![at("eq?"), at("a"), at("b")]),
            li(vec![at("="), at("c"), li(vec![at("*"), at("2"), at("d")])]),
        ])])
    );
    assert_eq!(
        parsed("a == b eqv c"),
        li(vec![li(vec![at("eqv?"), li(vec![at("equal?"), at("a"), at("b")]), at("c")])])
    );
}

#[test]
fn append_is_loosest() {
    assert_eq!(
        parsed("a ++ b : c"),
        li(vec![li(vec![at("append"), at("a"), li(vec![at("cons"), at("b"), at("c")])])])
    );
}

#[test]
fn subtraction_groups_left() {
    assert_eq!(
        parsed("1 - 2 - 3"),
        li(vec![li(vec![at("-"), li(vec![at("-"), at("1"), at("2")]), at("3")])])
    );
}

#[test]
fn comparison_words() {
    assert_eq!(parsed("a is b"), li(vec![li(vec![at("eq?"), at("a"), at("b")])]));
    assert_eq!(parsed("a eqv b"), li(vec![li(vec![at("eqv?"), at("a"), at("b")])]));
    assert_eq!(parsed("x = y"), li(vec![li(vec![at("="), at("x"), at("y")])]));
    assert_eq!(
        parsed("p && q || r"),
        li(vec![li(vec![at("or"), li(vec![at("and"), at("p"), at("q")]), at("r")])])
    );
}

#[test]
fn operator_words_are_atoms_in_scheme() {
    assert_eq!(parsed("(+ a b)"), li(vec![li(vec![at("+"), at("a"), at("b")])]));
}

#[test]
fn climb_splits_at_loosest_operator() {
    let t = climb(
        vec![at("a"), at("b"), at("c")],
        vec![Operator::Multiply, Operator::Add],
    );
    assert_eq!(t, li(vec![at("+"), li(vec![at("*"), at("a"), at("b")]), at("c")]));
    let u = climb(vec![at("a"), at("b"), at("c")], vec![Operator::Cons, Operator::Cons]);
    assert_eq!(u, li(vec![at("cons"), at("a"), li(vec![at("cons"), at("b"), at("c")])]));
    assert_eq!(climb(vec![at("z")], vec![]), at("z"));
}

#[test]
fn operator_names_and_levels() {
    assert_eq!(Operator::Append.scheme_name(), "append");
    assert_eq!(Operator::Equal.scheme_name(), "equal?");
    assert_eq!(Operator::Eq.scheme_name(), "eq?");
    assert!(Operator::Append.precedence() < Operator::Cons.precedence());
    assert!(Operator::Add.precedence() < Operator::Multiply.precedence());
    assert!(Operator::Equal.precedence() < Operator::LowerThan.precedence());
    assert!(Operator::And.precedence() < Operator::Equal.precedence());
    assert_eq!(Operator::Eq.precedence(), Operator::MathEqual.precedence());
    assert_eq!(Operator::Add.precedence(), Operator::Subtract.precedence());
}

// Definitions and forms

#[test]
fn value_definition() {
    assert_eq!(parsed("define bar = z"), li(vec![li(vec![at("define"), at("bar"), at("z")])]));
}

#[test]
fn call_with_trailing_comma_and_no_arguments() {
    assert_eq!(parsed("f(x,)"), li(vec![li(vec![at("f"), at("x")])]));
    assert_eq!(parsed("f(,)"), li(vec![li(vec![at("f")])]));
}

#[test]
fn cond_arms() {
    assert_eq!(
        parsed("cond { a => 1, else => 2 }"),
        li(vec![li(vec![
            at("cond"),
            li(vec![at("a"), at("1")]),
            li(vec![at("else"), at("2")]),
        ])])
    );
}

// Indexing

#[test]
fn index_after_applies_cdr() {
    assert_eq!(index_after(at("x"), 0), at("x"));
    assert_eq!(
        index_after(at("x"), 2),
        li(vec![at("cdr"), li(vec![at("cdr"), at("x")])])
    );
}

#[test]
fn element_at_applies_car() {
    assert_eq!(
        element_at(&at("x"), 1),
        li(vec![at("car"), li(vec![at("cdr"), at("x")])])
    );
}

#[test]
fn index_until_lists_elements() {
    let v = index_until(&at("x"), 2);
    assert_eq!(
        v,
        vec![
            li(vec![at("car"), at("x")]),
            li(vec![at("car"), li(vec![at("cdr"), at("x")])]),
        ]
    );
    assert!(index_until(&at("x"), 0).is_empty());
}

#[test]
fn index_tree_by_range() {
    assert_eq!(
        index_tree(at("x"), IndexRange::OpenLeft(1)),
        li(vec![at("list"), li(vec![at("car"), at("x")])])
    );
    assert_eq!(
        index_tree(at("x"), IndexRange::Full(1, 2)),
        li(vec![at("list"), li(vec![at("car"), li(vec![at("cdr"), at("x")])])])
    );
    assert_eq!(index_tree(at("x"), IndexRange::OpenRight(0)), at("x"));
}

// Lexer

#[test]
fn lex_kinds_and_spans() {
    let s = chars_of("(a, [b]) {c}");
    let tokens = lex(&s).unwrap();
    let kinds: Vec<TokenKind> = tokens.iter().map(|t| t.kind).collect();
    assert_eq!(
        kinds,
        vec![
            TokenKind::Open,
            TokenKind::Word,
            TokenKind::Comma,
            TokenKind::OpenBracket,
            TokenKind::Word,
            TokenKind::CloseBracket,
            TokenKind::Close,
            TokenKind::OpenBrace,
            TokenKind::Word,
            TokenKind::CloseBrace,
        ]
    );
    assert_eq!(tokens[1], Token { kind: TokenKind::Word, start: 1, end: 2 });
}

#[test]
fn lex_reports_unterminated_string() {
    let s = chars_of("x \"abc");
    assert_eq!(lex(&s), Err(2));
}

// Interactive session

#[test]
fn prompt_text() {
    assert_eq!(REPL_PROMPT, "( ");
}

#[test]
fn meta_handler_commands() {
    let mut h = MetaHandler::new();
    assert!(h.multiline_mode);
    assert_eq!(h.handle(",help"), MetaFlow::Ignore);
    assert!(h.multiline_mode);
    assert_eq!(h.handle(",mline"), MetaFlow::Ignore);
    assert!(!h.multiline_mode);
    assert_eq!(h.handle("(foo)"), MetaFlow::Continue);
    assert_eq!(h.handle(",exit"), MetaFlow::Break);
    assert!(!h.multiline_mode);
}

#[test]
fn mline_twice_restores_mode() {
    let mut s = ReplSession::new();
    assert!(matches!(s.step(",mline"), ReplAction::Notice(t) if t == "Multiline: false"));
    assert!(matches!(s.step(",mline"), ReplAction::Notice(t) if t == "Multiline: true"));
    assert!(s.handler.multiline_mode);
    assert_eq!(s.buffer, "");
}

#[test]
fn multiline_buffers_until_empty_line() {
    let mut s = ReplSession::new();
    assert!(matches!(s.step("(foo"), ReplAction::Wait));
    assert!(matches!(s.step("bar)"), ReplAction::Wait));
    assert!(matches!(s.step(""), ReplAction::Process(t) if t == "(foo\nbar)\n"));
    assert_eq!(s.buffer, "");
}

#[test]
fn single_line_mode_processes_each_line() {
    let mut s = ReplSession::new();
    s.step(",mline");
    assert!(matches!(s.step("a + b"), ReplAction::Process(t) if t == "a + b"));
    assert!(matches!(s.step(""), ReplAction::Process(t) if t.is_empty()));
}

#[test]
fn help_and_exit() {
    let mut s = ReplSession::new();
    assert!(matches!(
        s.step(",help"),
        ReplAction::Notice(t) if t == "Meta commands:\n,exit\texit repl\n,mline\ttoggle multiline mode\n,help\tthis help"
    ));
    assert!(matches!(s.step(",exit"), ReplAction::Exit));
}

#[test]
fn str_equal_compares_characters() {
    assert!(str_equal("ab", "ab"));
    assert!(!str_equal("ab", "abc"));
    assert!(!str_equal("ab", "ac"));
    assert!(str_equal("", ""));
}

#[test]
fn trees_from_text_and_vectors() {
    let t: GrammarTree = "x".into();
    assert_eq!(t, at("x"));
    let u: GrammarTree = vec![at("a"), li(vec![])].into();
    assert_eq!(u, li(vec![at("a"), li(vec![])]));
}

// Examples of the language description

#[test]
fn readme_define() {
    assert_eq!(
        parsed("define foo(x, y) {\n\t(display (+ x y))\n}\n\ndefine bar = z;\n"),
        li(vec![
            li(vec![
                at("define"),
                li(vec![at("foo"), at("x"), at("y")]),
                li(vec![at("display"), li(vec![at("+"), at("x"), at("y")])]),
            ]),
            li(vec![at("define"), at("bar"), at("z")]),
        ])
    );
}

#[test]
fn readme_call_caveats() {
    let input = "foo (x) ; not a call\n\nfoo (x,) ; unambiguous call\n\nfoo(,)\n\n\
                 (lambda (x) x)(1,)\n\n{ cond {\n\t#f => foo,\n\t#t => bar\n} }(1,)\n";
    assert_eq!(
        parsed(input),
        li(vec![
            at("foo"),
            li(vec![at("x")]),
            li(vec![at("foo"), at("x")]),
            li(vec![at("foo")]),
            li(vec![li(vec![at("lambda"), li(vec![at("x")]), at("x")]), at("1")]),
            li(vec![
                li(vec![
                    at("cond"),
                    li(vec![at("#f"), at("foo")]),
                    li(vec![at("#t"), at("bar")]),
                ]),
                at("1"),
            ]),
        ])
    );
}

#[test]
fn readme_indexing() {
    let input = "lst[1]\nlst[2..]\nlst[..2]\nlst[1..1]\nlst[1..3]\n(list 1 2)[1]\n{ foo(,) }[0]\n";
    let car = |x: GrammarTree<'static>| li(vec![at("car"), x]);
    let cdr = |x: GrammarTree<'static>| li(vec![at("cdr"), x]);
    assert_eq!(
        parsed(input),
        li(vec![
            car(cdr(at("lst"))),
            cdr(cdr(at("lst"))),
            li(vec![at("list"), car(at("lst")), car(cdr(at("lst")))]),
            li(vec![]),
            li(vec![at("list"), car(cdr(at("lst"))), car(cdr(cdr(at("lst"))))]),
            car(cdr(li(vec![at("list"), at("1"), at("2")]))),
            car(li(vec![at("foo")])),
        ])
    );
}

#[test]
fn readme_infix() {
    assert_eq!(
        parsed("1 + 2\n\na == b ; alias\n\n#t is #t\n"),
        li(vec![
            li(vec![at("+"), at("1"), at("2")]),
            li(vec![at("equal?"), at("a"), at("b")]),
            li(vec![at("eq?"), at("#t"), at("#t")]),
        ])
    );
}

// Error locations

#[test]
fn locate_line_and_column() {
    assert_eq!(locate("ab\ncd", 4), Location { line: 2, column: 2, line_start: 3 });
    assert_eq!(locate("ab\ncd", 3), Location { line: 2, column: 1, line_start: 3 });
    assert_eq!(locate("ab", 10), Location { line: 1, column: 3, line_start: 0 });
    assert_eq!(locate("", 0), Location { line: 1, column: 1, line_start: 0 });
}

// Layout

fn printed(t: &GrammarTree<'static>, depth: usize, indent: &str) -> String {
    let mut out = String::new();
    t.fmt_scheme(&mut out, depth, indent);
    out
}

#[test]
fn printing_adds_only_layout() {
    let t = li(vec![at("a"), li(vec![at("b"), li(vec![at("c")])]), li(vec![])]);
    let text = printed(&t, 2, "\t");
    let stripped: String = text.chars().filter(|c| *c != '\n' && *c != '\t').collect();
    assert_eq!(stripped, "(a (b (c)) ())");
}

#[test]
fn deeper_printing_indents_each_line() {
    let t = li(vec![at("a"), li(vec![at("b"), li(vec![at("c")])])]);
    for depth in 0..3 {
        let here = printed(&t, depth, "  ");
        let deeper = printed(&t, depth + 1, "  ");
        assert_eq!(deeper, here.replace('\n', "\n  "));
    }
}

#[test]
fn buffering_survives_meta_commands() {
    let mut s = ReplSession::new();
    assert!(matches!(s.step("(a"), ReplAction::Wait));
    assert!(matches!(s.step(",help"), ReplAction::Notice(_)));
    assert!(matches!(s.step("b)"), ReplAction::Wait));
    assert!(matches!(s.step(",mline"), ReplAction::Notice(_)));
    assert!(matches!(s.step("x"), ReplAction::Process(t) if t == "x"));
    assert!(matches!(s.step(""), ReplAction::Process(t) if t.is_empty()));
    assert!(matches!(s.step(",mline"), ReplAction::Notice(_)));
    assert!(matches!(s.step(""), ReplAction::Process(t) if t == "(a\nb)\n"));
    assert!(matches!(s.step(""), ReplAction::Process(t) if t.is_empty()));
}

#[test]
fn let_without_bindings() {
    assert_eq!(
        parsed("let { (display 1) }"),
        li(vec![li(vec![at("let"), li(vec![]), li(vec![at("display"), at("1")])])])
    );
    assert_eq!(
        parsed("(f letrec { a })"),
        li(vec![li(vec![at("f"), li(vec![at("letrec"), li(vec![]), at("a")])])])
    );
}

#[test]
fn let_bindings_may_end_in_comma() {
    assert_eq!(
        parsed("let* x = 1, y = x, { y }"),
        li(vec![li(vec![
            at("let*"),
            li(vec![li(vec![at("x"), at("1")]), li(vec![at("y"), at("x")])]),
            at("y"),
        ])])
    );
}

#[test]
fn error_text_points_at_the_spot() {
    let input = "(a b)\n  c )\n(d)";
    let e = failure(input);
    assert_eq!(e, ParseError { kind: ParseErrorKind::Syntax, position: 10 });
    assert_eq!(
        error_text(input, e),
        " --> 2:5\n  |\n  |   c )\n  |     ^\n  |\n  = no expression begins here"
    );
    let input2 = "x \"ab";
    let e2 = failure(input2);
    assert_eq!(
        error_text(input2, e2),
        " --> 1:3\n  |\n  | x \"ab\n  |   ^\n  |\n  = no token begins here"
    );
}
