//! What the FUP forms mean, stated against the meaning of their parts: the
//! Scheme procedure of each infix operator, the decimal value of an index,
//! and the whole infix expressions that `let`, `define` and `cond` take.
use vstd::prelude::*;

use super::syntax::{
    atom_at, cond_head, define_function_head, define_value_head, is_closer, is_kind,
    is_let_keyword, is_name, is_name_word, is_word, let_head, operator_at, operator_of,
    prepend_trees, scheme_name, spec_assignments, spec_chain, spec_climb, spec_cond,
    spec_cond_arms, spec_define, spec_expr, spec_items, spec_let, spec_let_bindings, spec_postfix,
    spec_term, token_text, Operator,
};
use crate::grammar::SpecTree;
use crate::lexer::{Token, TokenKind};

verus! {

/// The FUP spellings of the infix operators.
pub open spec fn is_operator_spelling(w: Seq<char>) -> bool {
    ||| w == "++"@
    ||| w == ":"@
    ||| w == "||"@
    ||| w == "&&"@
    ||| w == "<="@
    ||| w == ">="@
    ||| w == "<"@
    ||| w == ">"@
    ||| w == "+"@
    ||| w == "-"@
    ||| w == "*"@
    ||| w == "/"@
    ||| w == "%"@
    ||| w == "is"@
    ||| w == "eqv"@
    ||| w == "=="@
    ||| w == "="@
}

/// The Scheme procedure that each operator spelling is written as.
pub open spec fn procedure_for(w: Seq<char>) -> Seq<char> {
    if w == "++"@ {
        "append"@
    } else if w == ":"@ {
        "cons"@
    } else if w == "||"@ {
        "or"@
    } else if w == "&&"@ {
        "and"@
    } else if w == "is"@ {
        "eq?"@
    } else if w == "eqv"@ {
        "eqv?"@
    } else if w == "=="@ {
        "equal?"@
    } else {
        w
    }
}

proof fn lemma_reveal_spellings()
    ensures
        "++"@ == seq!['+', '+'],
        ":"@ == seq![':'],
        "||"@ == seq!['|', '|'],
        "&&"@ == seq!['&', '&'],
        "<="@ == seq!['<', '='],
        ">="@ == seq!['>', '='],
        "<"@ == seq!['<'],
        ">"@ == seq!['>'],
        "+"@ == seq!['+'],
        "-"@ == seq!['-'],
        "*"@ == seq!['*'],
        "/"@ == seq!['/'],
        "%"@ == seq!['%'],
        "is"@ == seq!['i', 's'],
        "eqv"@ == seq!['e', 'q', 'v'],
        "=="@ == seq!['=', '='],
        "="@ == seq!['='],
{
    reveal_strlit("++");
    reveal_strlit(":");
    reveal_strlit("||");
    reveal_strlit("&&");
    reveal_strlit("<=");
    reveal_strlit(">=");
    reveal_strlit("<");
    reveal_strlit(">");
    reveal_strlit("+");
    reveal_strlit("-");
    reveal_strlit("*");
    reveal_strlit("/");
    reveal_strlit("%");
    reveal_strlit("is");
    reveal_strlit("eqv");
    reveal_strlit("==");
    reveal_strlit("=");
    assert("++"@ =~= seq!['+', '+']);
    assert(":"@ =~= seq![':']);
    assert("||"@ =~= seq!['|', '|']);
    assert("&&"@ =~= seq!['&', '&']);
    assert("<="@ =~= seq!['<', '=']);
    assert(">="@ =~= seq!['>', '=']);
    assert("<"@ =~= seq!['<']);
    assert(">"@ =~= seq!['>']);
    assert("+"@ =~= seq!['+']);
    assert("-"@ =~= seq!['-']);
    assert("*"@ =~= seq!['*']);
    assert("/"@ =~= seq!['/']);
    assert("%"@ =~= seq!['%']);
    assert("is"@ =~= seq!['i', 's']);
    assert("eqv"@ =~= seq!['e', 'q', 'v']);
    assert("=="@ =~= seq!['=', '=']);
    assert("="@ =~= seq!['=']);
}

proof fn lemma_reveal_procedures()
    ensures
        "append"@ == seq!['a', 'p', 'p', 'e', 'n', 'd'],
        "cons"@ == seq!['c', 'o', 'n', 's'],
        "or"@ == seq!['o', 'r'],
        "and"@ == seq!['a', 'n', 'd'],
        "eq?"@ == seq!['e', 'q', '?'],
        "eqv?"@ == seq!['e', 'q', 'v', '?'],
        "equal?"@ == seq!['e', 'q', 'u', 'a', 'l', '?'],
{
    reveal_strlit("append");
    reveal_strlit("cons");
    reveal_strlit("or");
    reveal_strlit("and");
    reveal_strlit("eq?");
    reveal_strlit("eqv?");
    reveal_strlit("equal?");
    assert("append"@ =~= seq!['a', 'p', 'p', 'e', 'n', 'd']);
    assert("cons"@ =~= seq!['c', 'o', 'n', 's']);
    assert("or"@ =~= seq!['o', 'r']);
    assert("and"@ =~= seq!['a', 'n', 'd']);
    assert("eq?"@ =~= seq!['e', 'q', '?']);
    assert("eqv?"@ =~= seq!['e', 'q', 'v', '?']);
    assert("equal?"@ =~= seq!['e', 'q', 'u', 'a', 'l', '?']);
}

/// Each operator spelling is read as an operator whose Scheme procedure is
/// the one the table gives.
proof fn lemma_spelling_procedure(w: Seq<char>)
    requires
        is_operator_spelling(w),
    ensures
        operator_of(w) is Some,
        scheme_name(operator_of(w)->0) == procedure_for(w),
{
    lemma_reveal_spellings();
    lemma_reveal_procedures();
    if w == "++"@ {
    } else if w == ":"@ {
        assert(w != "++"@);
    } else if w == "||"@ {
    } else if w == "&&"@ {
    } else if w == "<="@ {
    } else if w == ">="@ {
        assert(w[0] != "<="@[0]);
    } else if w == "<"@ {
    } else if w == ">"@ {
    } else if w == "+"@ {
    } else if w == "-"@ {
    } else if w == "*"@ {
    } else if w == "/"@ {
    } else if w == "%"@ {
    } else if w == "is"@ {
    } else if w == "eqv"@ {
    } else if w == "=="@ {
    } else {
    }
}


/// The tree of a parse result (an empty list for none).
pub open spec fn parsed_tree(r: Option<(SpecTree, int)>) -> SpecTree {
    match r {
        Some((t, _)) => t,
        None => SpecTree::List(Seq::empty()),
    }
}

/// Where a parse result ends (-1 for none).
pub open spec fn parsed_end(r: Option<(SpecTree, int)>) -> int {
    match r {
        Some((_, j)) => j,
        None => -1,
    }
}

proof fn lemma_chain_advances(ts: Seq<Token>, s: Seq<char>, i: int)
    requires
        0 <= i <= ts.len(),
        spec_chain(ts, s, i) is Some,
    ensures
        ({
            let (xs, os, k) = spec_chain(ts, s, i)->0;
            i <= k <= ts.len()
        }),
    decreases ts.len() - i,
{
    if let Some(op) = operator_at(ts, s, i) {
        let (t, j) = spec_term(ts, s, i + 1, false)->0;
        lemma_chain_advances(ts, s, j);
    }
}

/// An infix expression that parses ends after where it starts and within
/// the tokens.
pub proof fn lemma_expr_advances(ts: Seq<Token>, s: Seq<char>, i: int)
    requires
        0 <= i,
        spec_expr(ts, s, i) is Some,
    ensures
        i < parsed_end(spec_expr(ts, s, i)) <= ts.len(),
{
    let (t, j) = spec_term(ts, s, i, false)->0;
    lemma_chain_advances(ts, s, j);
}

proof fn lemma_equals_sign_is_no_name()
    ensures
        !is_name("="@),
{
    reveal_strlit("=");
    assert("="@[0] == '=');
}

/// A name whose neighbours are words or ends the way the law below needs
/// is a term of its own.
proof fn lemma_name_term(ts: Seq<Token>, s: Seq<char>, i: int)
    requires
        0 <= i < ts.len(),
        is_kind(ts, i, TokenKind::Word),
        is_name(token_text(s, ts[i])),
        i + 1 == ts.len() || is_closer(ts[i + 1].kind) || (is_kind(ts, i + 1, TokenKind::Word)
            && is_kind(ts, i + 2, TokenKind::Word) && is_name(token_text(s, ts[i + 2]))),
    ensures
        spec_term(ts, s, i, false) == Some((atom_at(ts, s, i), i + 1)),
{
    lemma_equals_sign_is_no_name();
    assert(!cond_head(ts, s, i));
    assert(!define_function_head(ts, s, i));
    assert(!define_value_head(ts, s, i));
    assert(!let_head(ts, s, i));
    assert(spec_postfix(ts, s, atom_at(ts, s, i), i + 1) == Some((atom_at(ts, s, i), i + 1)));
}

/// Infix operators name their Scheme procedures: for names `x` and `y` and
/// an operator spelled `w`, the expression `x w y` is `(P x y)` with `P`
/// the procedure that `w` stands for (`>=` for `>=`, `equal?` for `==`,
/// `cons` for `:`, ...).
pub proof fn lemma_infix_procedure(ts: Seq<Token>, s: Seq<char>, i: int)
    requires
        0 <= i,
        i + 2 < ts.len(),
        is_kind(ts, i, TokenKind::Word),
        is_kind(ts, i + 1, TokenKind::Word),
        is_kind(ts, i + 2, TokenKind::Word),
        is_name(token_text(s, ts[i])),
        is_operator_spelling(token_text(s, ts[i + 1])),
        is_name(token_text(s, ts[i + 2])),
        i + 3 == ts.len() || is_closer(ts[i + 3].kind),
    ensures
        spec_expr(ts, s, i) == Some(
            (
                SpecTree::List(
                    seq![
                        SpecTree::Atom(procedure_for(token_text(s, ts[i + 1]))),
                        SpecTree::Atom(token_text(s, ts[i])),
                        SpecTree::Atom(token_text(s, ts[i + 2])),
                    ],
                ),
                i + 3,
            ),
        ),
{
    let w = token_text(s, ts[i + 1]);
    lemma_spelling_procedure(w);
    lemma_equals_sign_is_no_name();
    let op = operator_of(w)->0;
    let x = atom_at(ts, s, i);
    let y = atom_at(ts, s, i + 2);
    lemma_name_term(ts, s, i);
    lemma_name_term(ts, s, i + 2);
    assert(operator_at(ts, s, i + 1) == Some(op));
    assert(operator_at(ts, s, i + 3) is None);
    assert(spec_chain(ts, s, i + 3) == Some(
        (Seq::<SpecTree>::empty(), Seq::<Operator>::empty(), i + 3),
    ));
    assert(seq![y] + Seq::<SpecTree>::empty() =~= seq![y]);
    assert(seq![op] + Seq::<Operator>::empty() =~= seq![op]);
    assert(spec_chain(ts, s, i + 1) == Some((seq![y], seq![op], i + 3)));
    lemma_climb_one(x, y, op);
    assert(seq![x] + seq![y] =~= seq![x, y]);
}

/// One operator between two operands: `(P x y)`.
proof fn lemma_climb_one(x: SpecTree, y: SpecTree, op: Operator)
    ensures
        spec_climb(seq![x, y], seq![op]) == SpecTree::List(
            seq![SpecTree::Atom(scheme_name(op)), x, y],
        ),
{
    let xs = seq![x, y];
    let ops = seq![op];
    reveal_with_fuel(spec_climb, 2);
    reveal_with_fuel(super::syntax::min_precedence, 2);
    reveal_with_fuel(super::syntax::first_with_precedence, 2);
    reveal_with_fuel(super::syntax::last_with_precedence, 2);
    assert(ops.drop_last() =~= Seq::<Operator>::empty());
    assert(super::syntax::split_point(ops) == 0);
    assert(xs.take(1) =~= seq![x]);
    assert(ops.take(0) =~= Seq::<Operator>::empty());
    assert(xs.skip(1) =~= seq![y]);
    assert(ops.skip(1) =~= Seq::<Operator>::empty());
    assert(spec_climb(seq![x], Seq::<Operator>::empty()) == x);
    assert(spec_climb(seq![y], Seq::<Operator>::empty()) == y);
}


/// A decimal digit `0` to `9`.
pub open spec fn is_decimal_digit(c: char) -> bool {
    '0' <= c && c <= '9'
}

/// Every character of `w` is a decimal digit.
pub open spec fn all_decimal_digits(w: Seq<char>) -> bool {
    forall|k: int| 0 <= k < w.len() ==> #[trigger] is_decimal_digit(w[k])
}

/// The value of a decimal digit.
pub open spec fn digit_value(c: char) -> nat {
    (c as int - '0' as int) as nat
}

/// Ten to the power `n`.
pub open spec fn pow10(n: nat) -> nat
    decreases n,
{
    if n == 0 {
        1
    } else {
        10 * pow10((n - 1) as nat)
    }
}

/// The standard reading of decimal digits: each digit times ten to the
/// power of the number of digits after it, summed.
pub open spec fn decimal_reading(w: Seq<char>) -> nat
    decreases w.len(),
{
    if w.len() == 0 {
        0
    } else {
        digit_value(w[0]) * pow10((w.len() - 1) as nat) + decimal_reading(w.drop_first())
    }
}

proof fn lemma_digit_value(c: char)
    requires
        is_decimal_digit(c),
    ensures
        (((c as u32) - 48) as nat) == digit_value(c),
{
    assert('0' as int == 48);
    assert((c as u32) as int == c as int);
}

proof fn lemma_decimal_value_is_reading(w: Seq<char>)
    requires
        all_decimal_digits(w),
    ensures
        super::syntax::decimal_value(w) == decimal_reading(w),
    decreases w.len(),
{
    let n = w.len();
    if n == 0 {
        assert(super::syntax::decimal_value(w) == 0);
        assert(decimal_reading(w) == 0);
    } else if n == 1 {
        assert(w.drop_last().len() == 0);
        assert(w.drop_first().len() == 0);
        assert(is_decimal_digit(w[0]));
        assert(w.last() == w[0]);
        lemma_digit_value(w[0]);
        assert(super::syntax::decimal_value(w) == super::syntax::decimal_value(w.drop_last()) * 10
            + digit_value(w[0]));
        assert(decimal_reading(w) == digit_value(w[0]) * pow10(0) + decimal_reading(w.drop_first()));
        assert(super::syntax::decimal_value(w.drop_last()) == 0);
        assert(decimal_reading(w.drop_first()) == 0);
        assert(pow10(0) == 1);
        assert(super::syntax::decimal_value(w) == digit_value(w[0]));
        let d = digit_value(w[0]);
        let one = pow10(0);
        assert(d * one == d) by (nonlinear_arith)
            requires
                one == 1,
        ;
        assert(decimal_reading(w) == digit_value(w[0]));
    } else {
        let init = w.drop_last();
        let tail = w.drop_first();
        let mid = tail.drop_last();
        assert(init.drop_first() =~= mid);
        assert forall|k: int| 0 <= k < init.len() implies #[trigger] is_decimal_digit(init[k]) by {
            assert(init[k] == w[k]);
        }
        assert forall|k: int| 0 <= k < tail.len() implies #[trigger] is_decimal_digit(tail[k]) by {
            assert(tail[k] == w[k + 1]);
        }
        assert forall|k: int| 0 <= k < mid.len() implies #[trigger] is_decimal_digit(mid[k]) by {
            assert(mid[k] == w[k + 1]);
        }
        lemma_decimal_value_is_reading(init);
        lemma_decimal_value_is_reading(tail);
        lemma_decimal_value_is_reading(mid);
        assert(init[0] == w[0]);
        assert(tail.last() == w.last());
        assert(is_decimal_digit(w.last())) by {
            assert(w.last() == w[n - 1]);
        }
        lemma_digit_value(w.last());
        let d0 = digit_value(w[0]);
        let dl = digit_value(w.last());
        let p = pow10((n - 2) as nat);
        let r = decimal_reading(mid);
        assert(super::syntax::decimal_value(w) == super::syntax::decimal_value(init) * 10 + dl);
        assert(super::syntax::decimal_value(tail) == super::syntax::decimal_value(mid) * 10 + dl);
        assert(decimal_reading(init) == d0 * p + r);
        assert(pow10((n - 1) as nat) == 10 * p);
        assert((d0 * p + r) * 10 + dl == d0 * (10 * p) + (r * 10 + dl)) by (nonlinear_arith);
        assert(decimal_reading(w) == d0 * pow10((n - 1) as nat) + decimal_reading(tail));
        assert(decimal_reading(tail) == r * 10 + dl);
        assert(super::syntax::decimal_value(init) == d0 * p + r);
        assert(super::syntax::decimal_value(w) == (d0 * p + r) * 10 + dl);
        assert(decimal_reading(w) == d0 * (10 * p) + (r * 10 + dl));
        assert(super::syntax::decimal_value(w) == decimal_reading(w));
    }
}

proof fn lemma_digit_run_to_end(w: Seq<char>, k: int)
    requires
        0 <= k <= w.len(),
        all_decimal_digits(w),
    ensures
        super::syntax::digit_run_end(w, k) == w.len(),
    decreases w.len() - k,
{
    if k < w.len() {
        assert(is_decimal_digit(w[k]));
        lemma_digit_run_to_end(w, k + 1);
    }
}

/// The number of an index is the decimal reading of its digits, when it
/// fits in a `usize`.
pub proof fn lemma_index_number_is_decimal(w: Seq<char>)
    requires
        all_decimal_digits(w),
    ensures
        super::syntax::index_number(w) == if decimal_reading(w) <= usize::MAX {
            Some(decimal_reading(w) as usize)
        } else {
            None
        },
{
    lemma_decimal_value_is_reading(w);
}

/// `x[n]` with decimal digits `n` is the element at the decimal reading of
/// `n`: `car` after that many `cdr`s.
pub proof fn lemma_exact_index(ts: Seq<Token>, s: Seq<char>, t: SpecTree, i: int)
    requires
        0 <= i,
        is_kind(ts, i, TokenKind::OpenBracket),
        is_kind(ts, i + 1, TokenKind::Word),
        is_kind(ts, i + 2, TokenKind::CloseBracket),
        token_text(s, ts[i + 1]).len() > 0,
        all_decimal_digits(token_text(s, ts[i + 1])),
        decimal_reading(token_text(s, ts[i + 1])) <= usize::MAX,
    ensures
        spec_postfix(ts, s, t, i) == Some(
            (
                crate::grammar::spec_element_at(t, decimal_reading(token_text(s, ts[i + 1]))),
                i + 3,
            ),
        ),
{
    let w = token_text(s, ts[i + 1]);
    lemma_digit_run_to_end(w, 0);
    lemma_index_number_is_decimal(w);
    assert(w.take(w.len() as int) =~= w);
    assert(super::syntax::range_shaped(w));
    assert(super::syntax::spec_parse_range(w) == Some(
        super::syntax::IndexRange::Exact(decimal_reading(w) as usize),
    ));
}


/// A let binding's value is a whole infix expression: when `e` parses on
/// its own to `T` and the body's brace follows it, `let x = e { b }` is
/// `(let ((x T)) b)` (likewise for `let*` and `letrec`).
pub proof fn lemma_let_value_is_expression(ts: Seq<Token>, s: Seq<char>, i: int, unscoped: bool)
    requires
        0 <= i,
        is_kind(ts, i, TokenKind::Word),
        is_let_keyword(token_text(s, ts[i])),
        is_name_word(ts, s, i + 1),
        is_word(ts, s, i + 2, "="@),
        spec_expr(ts, s, i + 3) is Some,
        is_kind(ts, parsed_end(spec_expr(ts, s, i + 3)), TokenKind::OpenBrace),
        is_kind(
            ts,
            spec_items(ts, s, parsed_end(spec_expr(ts, s, i + 3)) + 1).1,
            TokenKind::CloseBrace,
        ),
    ensures
        spec_let(ts, s, i, unscoped) == Some(
            (
                SpecTree::List(
                    seq![
                        atom_at(ts, s, i),
                        SpecTree::List(
                            seq![
                                SpecTree::List(
                                    seq![atom_at(ts, s, i + 1), parsed_tree(spec_expr(ts, s, i + 3))],
                                ),
                            ],
                        ),
                    ] + spec_items(ts, s, parsed_end(spec_expr(ts, s, i + 3)) + 1).0,
                ),
                spec_items(ts, s, parsed_end(spec_expr(ts, s, i + 3)) + 1).1 + 1,
            ),
        ),
{
    lemma_expr_advances(ts, s, i + 3);
    let j = parsed_end(spec_expr(ts, s, i + 3));
    let a = SpecTree::List(seq![atom_at(ts, s, i + 1), parsed_tree(spec_expr(ts, s, i + 3))]);
    assert(spec_assignments(ts, s, i + 1) == Some((seq![a], j)));
    assert(spec_let_bindings(ts, s, i) == Some((seq![a], j)));
}

/// Each binding of a let takes a whole infix expression: when `e` parses on
/// its own to `T` and a comma follows that does not end the bindings,
/// `x = e, ...` is `(x T)` followed by the bindings after the comma.
pub proof fn lemma_binding_value_is_expression(ts: Seq<Token>, s: Seq<char>, p: int)
    requires
        0 <= p,
        is_name_word(ts, s, p),
        is_word(ts, s, p + 1, "="@),
        spec_expr(ts, s, p + 2) is Some,
        is_kind(ts, parsed_end(spec_expr(ts, s, p + 2)), TokenKind::Comma),
        !is_kind(ts, parsed_end(spec_expr(ts, s, p + 2)) + 1, TokenKind::OpenBrace),
    ensures
        spec_assignments(ts, s, p) == prepend_trees(
            seq![SpecTree::List(seq![atom_at(ts, s, p), parsed_tree(spec_expr(ts, s, p + 2))])],
            spec_assignments(ts, s, parsed_end(spec_expr(ts, s, p + 2)) + 1),
        ),
{
    lemma_expr_advances(ts, s, p + 2);
}

/// A value definition takes a whole infix expression: when `e` parses on
/// its own to `T` ending at `j`, `define x = e` is `(define x T)` ending at
/// `j`, as a definition and as a term.
pub proof fn lemma_define_value_is_expression(
    ts: Seq<Token>,
    s: Seq<char>,
    i: int,
    in_scheme: bool,
)
    requires
        0 <= i,
        is_word(ts, s, i, "define"@),
        is_name_word(ts, s, i + 1),
        is_word(ts, s, i + 2, "="@),
        spec_expr(ts, s, i + 3) is Some,
    ensures
        spec_define(ts, s, i) == Some(
            (
                SpecTree::List(
                    seq![
                        SpecTree::Atom("define"@),
                        atom_at(ts, s, i + 1),
                        parsed_tree(spec_expr(ts, s, i + 3)),
                    ],
                ),
                parsed_end(spec_expr(ts, s, i + 3)),
            ),
        ),
        spec_term(ts, s, i, in_scheme) == spec_define(ts, s, i),
{
    reveal_strlit("define");
    reveal_strlit("cond");
    assert("define"@.len() != "cond"@.len());
    assert(!cond_head(ts, s, i));
    assert(!define_function_head(ts, s, i));
    assert(define_value_head(ts, s, i));
}

/// A cond arm takes whole infix expressions: when `a` parses on its own to
/// `A`, then `=>`, then `b` parses to `B`, the arms `a => b }` are `(A B)`,
/// and `a => b, ...` is `(A B)` followed by the arms after the comma.
pub proof fn lemma_cond_arm_is_expressions(ts: Seq<Token>, s: Seq<char>, p: int)
    requires
        0 <= p,
        spec_expr(ts, s, p) is Some,
        is_word(ts, s, parsed_end(spec_expr(ts, s, p)), "=>"@),
        spec_expr(ts, s, parsed_end(spec_expr(ts, s, p)) + 1) is Some,
    ensures
        ({
            let j = parsed_end(spec_expr(ts, s, p));
            let k = parsed_end(spec_expr(ts, s, j + 1));
            let arm = SpecTree::List(
                seq![parsed_tree(spec_expr(ts, s, p)), parsed_tree(spec_expr(ts, s, j + 1))],
            );
            &&& is_kind(ts, k, TokenKind::CloseBrace) ==> spec_cond_arms(ts, s, p) == Some(
                (seq![arm], k + 1),
            )
            &&& is_kind(ts, k, TokenKind::Comma) ==> spec_cond_arms(ts, s, p) == prepend_trees(
                seq![arm],
                spec_cond_arms(ts, s, k + 1),
            )
        }),
{
    let j = parsed_end(spec_expr(ts, s, p));
    lemma_expr_advances(ts, s, p);
    lemma_expr_advances(ts, s, j + 1);
    assert(!is_kind(ts, p, TokenKind::CloseBrace));
}

/// A cond with one arm: when `a` parses on its own to `A` and `b` to `B`,
/// `cond { a => b }` is `(cond (A B))`.
pub proof fn lemma_cond_one_arm(ts: Seq<Token>, s: Seq<char>, i: int)
    requires
        0 <= i,
        is_word(ts, s, i, "cond"@),
        is_kind(ts, i + 1, TokenKind::OpenBrace),
        spec_expr(ts, s, i + 2) is Some,
        is_word(ts, s, parsed_end(spec_expr(ts, s, i + 2)), "=>"@),
        spec_expr(ts, s, parsed_end(spec_expr(ts, s, i + 2)) + 1) is Some,
        is_kind(
            ts,
            parsed_end(spec_expr(ts, s, parsed_end(spec_expr(ts, s, i + 2)) + 1)),
            TokenKind::CloseBrace,
        ),
    ensures
        ({
            let j = parsed_end(spec_expr(ts, s, i + 2));
            let k = parsed_end(spec_expr(ts, s, j + 1));
            spec_cond(ts, s, i) == Some(
                (
                    SpecTree::List(
                        seq![
                            SpecTree::Atom("cond"@),
                            SpecTree::List(
                                seq![
                                    parsed_tree(spec_expr(ts, s, i + 2)),
                                    parsed_tree(spec_expr(ts, s, j + 1)),
                                ],
                            ),
                        ],
                    ),
                    k + 1,
                ),
            )
        }),
{
    lemma_cond_arm_is_expressions(ts, s, i + 2);
    let j = parsed_end(spec_expr(ts, s, i + 2));
    let arm = SpecTree::List(
        seq![parsed_tree(spec_expr(ts, s, i + 2)), parsed_tree(spec_expr(ts, s, j + 1))],
    );
    assert(seq![SpecTree::Atom("cond"@)] + seq![arm] =~= seq![SpecTree::Atom("cond"@), arm]);
}


/// The element at `n` is `car` after exactly `n` `cdr`s: no `cdr` for `n`
/// = 0, one more for each step, and it does not matter whether the next
/// `cdr` goes inside or outside.
pub proof fn lemma_element_is_car_after_cdrs(x: SpecTree, n: nat)
    ensures
        crate::grammar::spec_index_after(x, 0) == x,
        crate::grammar::spec_index_after(x, n + 1) == SpecTree::List(
            seq![SpecTree::Atom("cdr"@), crate::grammar::spec_index_after(x, n)],
        ),
        crate::grammar::spec_index_after(SpecTree::List(seq![SpecTree::Atom("cdr"@), x]), n)
            == crate::grammar::spec_index_after(x, n + 1),
        crate::grammar::spec_element_at(x, n) == SpecTree::List(
            seq![SpecTree::Atom("car"@), crate::grammar::spec_index_after(x, n)],
        ),
    decreases n,
{
    if n > 0 {
        lemma_element_is_car_after_cdrs(x, (n - 1) as nat);
    }
}

} // verus!
