//! The FUP grammar, stated over the tokens of the source text.
use vstd::prelude::*;

use crate::grammar::{spec_element_at, spec_index_after, spec_index_until, SpecTree};
use crate::lexer::{Token, TokenKind};

verus! {

/// The infix operators of FUP expressions.
#[derive(Clone, Copy, Debug, PartialEq, Eq)]
pub enum Operator {
    Append,
    Cons,
    Or,
    And,
    LowerThanOrEqual,
    GreaterThanOrEqual,
    LowerThan,
    GreaterThan,
    Add,
    Subtract,
    Multiply,
    Divide,
    Modulo,
    Eq,
    Eqv,
    Equal,
    MathEqual,
}

/// The FUP spelling of each operator.
pub open spec fn operator_of(w: Seq<char>) -> Option<Operator> {
    if w == "++"@ {
        Some(Operator::Append)
    } else if w == ":"@ {
        Some(Operator::Cons)
    } else if w == "||"@ {
        Some(Operator::Or)
    } else if w == "&&"@ {
        Some(Operator::And)
    } else if w == "<="@ {
        Some(Operator::LowerThanOrEqual)
    } else if w == ">="@ {
        Some(Operator::GreaterThanOrEqual)
    } else if w == "<"@ {
        Some(Operator::LowerThan)
    } else if w == ">"@ {
        Some(Operator::GreaterThan)
    } else if w == "+"@ {
        Some(Operator::Add)
    } else if w == "-"@ {
        Some(Operator::Subtract)
    } else if w == "*"@ {
        Some(Operator::Multiply)
    } else if w == "/"@ {
        Some(Operator::Divide)
    } else if w == "%"@ {
        Some(Operator::Modulo)
    } else if w == "is"@ {
        Some(Operator::Eq)
    } else if w == "eqv"@ {
        Some(Operator::Eqv)
    } else if w == "=="@ {
        Some(Operator::Equal)
    } else if w == "="@ {
        Some(Operator::MathEqual)
    } else {
        None
    }
}

/// The Scheme procedure each operator stands for.
pub open spec fn scheme_name(op: Operator) -> Seq<char> {
    match op {
        Operator::Append => "append"@,
        Operator::Cons => "cons"@,
        Operator::Or => "or"@,
        Operator::And => "and"@,
        Operator::LowerThanOrEqual => "<="@,
        Operator::GreaterThanOrEqual => ">="@,
        Operator::LowerThan => "<"@,
        Operator::GreaterThan => ">"@,
        Operator::Add => "+"@,
        Operator::Subtract => "-"@,
        Operator::Multiply => "*"@,
        Operator::Divide => "/"@,
        Operator::Modulo => "%"@,
        Operator::Eq => "eq?"@,
        Operator::Eqv => "eqv?"@,
        Operator::Equal => "equal?"@,
        Operator::MathEqual => "="@,
    }
}

/// How tightly each operator binds: a greater number binds tighter. As in
/// most languages, arithmetic binds tighter than comparison, comparison
/// tighter than equality, and equality tighter than `&&` and `||`.
pub open spec fn precedence(op: Operator) -> nat {
    match op {
        Operator::Append => 1,
        Operator::Cons => 2,
        Operator::Or => 3,
        Operator::And => 4,
        Operator::Eq | Operator::Eqv | Operator::Equal | Operator::MathEqual => 5,
        Operator::LowerThanOrEqual | Operator::GreaterThanOrEqual => 6,
        Operator::LowerThan | Operator::GreaterThan => 7,
        Operator::Add | Operator::Subtract => 8,
        Operator::Multiply | Operator::Divide | Operator::Modulo => 9,
    }
}

/// Only `:` (cons) groups to the right; every other level groups to the left.
pub open spec fn right_assoc_level(p: nat) -> bool {
    p == 2
}

/// The loosest precedence among `ops` (10 for none).
pub open spec fn min_precedence(ops: Seq<Operator>) -> nat
    decreases ops.len(),
{
    if ops.len() == 0 {
        10
    } else {
        let p = min_precedence(ops.drop_last());
        let q = precedence(ops.last());
        if q < p {
            q
        } else {
            p
        }
    }
}

/// The position of the first operator of precedence `p` at or after `k`.
pub open spec fn first_with_precedence(ops: Seq<Operator>, p: nat, k: int) -> int
    decreases ops.len() - k,
{
    if k < 0 || k >= ops.len() {
        ops.len() as int
    } else if precedence(ops[k]) == p {
        k
    } else {
        first_with_precedence(ops, p, k + 1)
    }
}

/// The position of the last operator of precedence `p` before `k`.
pub open spec fn last_with_precedence(ops: Seq<Operator>, p: nat, k: int) -> int
    decreases k,
{
    if k <= 0 || k > ops.len() {
        -1
    } else if precedence(ops[k - 1]) == p {
        k - 1
    } else {
        last_with_precedence(ops, p, k - 1)
    }
}

/// The operator that applies last: one of the loosest precedence, the
/// leftmost one when that level groups to the right, else the rightmost.
pub open spec fn split_point(ops: Seq<Operator>) -> int {
    let p = min_precedence(ops);
    if right_assoc_level(p) {
        first_with_precedence(ops, p, 0)
    } else {
        last_with_precedence(ops, p, ops.len() as int)
    }
}

/// The tree of the infix expression `operands[0] ops[0] operands[1] ...`:
/// split at the operator that applies last, `(op left right)`.
pub open spec fn spec_climb(operands: Seq<SpecTree>, ops: Seq<Operator>) -> SpecTree
    decreases ops.len(),
{
    let k = split_point(ops);
    if ops.len() == 0 || operands.len() != ops.len() + 1 || !(0 <= k < ops.len()) {
        operands[0]
    } else {
        SpecTree::List(
            seq![
                SpecTree::Atom(scheme_name(ops[k])),
                spec_climb(operands.take(k + 1), ops.take(k)),
                spec_climb(operands.skip(k + 1), ops.skip(k + 1)),
            ],
        )
    }
}

/// An index range `[..]` after an indexable expression.
#[derive(Clone, Copy, Debug, PartialEq, Eq)]
pub enum IndexRange {
    /// `[n]`
    Exact(usize),
    /// `[n..]`
    OpenRight(usize),
    /// `[..n]`
    OpenLeft(usize),
    /// `[n..m]`
    Full(usize, usize),
}

pub open spec fn is_digit(c: char) -> bool {
    48 <= (c as u32) && (c as u32) <= 57
}

/// The decimal value of a run of digits.
pub open spec fn decimal_value(w: Seq<char>) -> nat
    decreases w.len(),
{
    if w.len() == 0 {
        0
    } else {
        decimal_value(w.drop_last()) * 10 + ((w.last() as u32) - 48) as nat
    }
}

/// The first position at or after `k` that holds no digit.
pub open spec fn digit_run_end(w: Seq<char>, k: int) -> int
    decreases w.len() - k,
{
    if k < 0 || k >= w.len() {
        k
    } else if is_digit(w[k]) {
        digit_run_end(w, k + 1)
    } else {
        k
    }
}

/// A run of digits whose value fits in a `usize`.
pub open spec fn index_number(w: Seq<char>) -> Option<usize> {
    if decimal_value(w) <= usize::MAX {
        Some(decimal_value(w) as usize)
    } else {
        None
    }
}

/// The index range a word spells: `n`, `n..`, `..n` or `n..m`, with decimal
/// numbers that fit in a `usize`.
pub open spec fn spec_parse_range(w: Seq<char>) -> Option<IndexRange> {
    let p = digit_run_end(w, 0);
    let left = w.take(p);
    if p == w.len() {
        if p > 0 && index_number(left) is Some {
            Some(IndexRange::Exact(index_number(left)->0))
        } else {
            None
        }
    } else if p + 2 <= w.len() && w[p] == '.' && w[p + 1] == '.' && digit_run_end(w, p + 2)
        == w.len() {
        let right = w.skip(p + 2);
        if left.len() == 0 && right.len() == 0 {
            None
        } else if left.len() == 0 {
            match index_number(right) {
                Some(n) => Some(IndexRange::OpenLeft(n)),
                None => None,
            }
        } else if right.len() == 0 {
            match index_number(left) {
                Some(n) => Some(IndexRange::OpenRight(n)),
                None => None,
            }
        } else {
            match (index_number(left), index_number(right)) {
                (Some(a), Some(b)) => Some(IndexRange::Full(a, b)),
                _ => None,
            }
        }
    } else {
        None
    }
}

/// Whether a word has the shape of an index range: `n`, `n..`, `..n` or
/// `n..m` with decimal digits, whatever the size of the numbers.
pub open spec fn range_shaped(w: Seq<char>) -> bool {
    let p = digit_run_end(w, 0);
    ||| p == w.len() && p > 0
    ||| p + 2 <= w.len() && w[p] == '.' && w[p + 1] == '.' && digit_run_end(w, p + 2) == w.len()
        && !(p == 0 && p + 2 == w.len())
}

/// `(list e...)`
pub open spec fn list_of(elements: Seq<SpecTree>) -> SpecTree {
    SpecTree::List(seq![SpecTree::Atom("list"@)] + elements)
}

/// The Scheme expression an index range denotes: `[n]` is the element at
/// `n`, `[n..]` the list after its first `n` elements, `[..n]` the list of
/// its first `n` elements, `[n..m]` the list of its elements `n .. m`
/// (the empty list `()` when `n >= m`).
pub open spec fn spec_index_tree(x: SpecTree, r: IndexRange) -> SpecTree {
    match r {
        IndexRange::Exact(n) => spec_element_at(x, n as nat),
        IndexRange::OpenRight(n) => spec_index_after(x, n as nat),
        IndexRange::OpenLeft(n) => list_of(spec_index_until(x, n as nat)),
        IndexRange::Full(a, b) => if a >= b {
            SpecTree::List(Seq::empty())
        } else {
            list_of(spec_index_until(x, b as nat).skip(a as int))
        },
    }
}

pub open spec fn is_name_start(c: char) -> bool {
    ('a' <= c && c <= 'z') || ('A' <= c && c <= 'Z') || c == '_'
}

pub open spec fn is_name_char(c: char) -> bool {
    is_name_start(c) || is_digit(c) || c == '?' || c == '!'
}

/// A name: a letter or `_`, then letters, digits, `_`, `?` and `!`.
pub open spec fn is_name(w: Seq<char>) -> bool {
    &&& w.len() > 0
    &&& is_name_start(w[0])
    &&& forall|k: int| 1 <= k < w.len() ==> #[trigger] is_name_char(w[k])
}

pub open spec fn token_text(s: Seq<char>, t: Token) -> Seq<char> {
    s.subrange(t.start as int, t.end as int)
}

pub open spec fn is_kind(ts: Seq<Token>, i: int, k: TokenKind) -> bool {
    0 <= i < ts.len() && ts[i].kind == k
}

pub open spec fn is_word(ts: Seq<Token>, s: Seq<char>, i: int, w: Seq<char>) -> bool {
    is_kind(ts, i, TokenKind::Word) && token_text(s, ts[i]) == w
}

pub open spec fn is_name_word(ts: Seq<Token>, s: Seq<char>, i: int) -> bool {
    is_kind(ts, i, TokenKind::Word) && is_name(token_text(s, ts[i]))
}

/// The atom that holds the text of token `i`.
pub open spec fn atom_at(ts: Seq<Token>, s: Seq<char>, i: int) -> SpecTree {
    SpecTree::Atom(token_text(s, ts[i]))
}

/// Tokens that end a sequence of expressions.
pub open spec fn is_closer(k: TokenKind) -> bool {
    k == TokenKind::Close || k == TokenKind::CloseBracket || k == TokenKind::CloseBrace || k
        == TokenKind::Comma
}

pub open spec fn is_opener(k: TokenKind) -> bool {
    k == TokenKind::Open || k == TokenKind::OpenBracket || k == TokenKind::OpenBrace
}

/// Whether a comma stands in the group that is open at `i` (with `depth`
/// nested groups open inside it) before the group closes.
pub open spec fn spec_has_top_comma(ts: Seq<Token>, i: int, depth: nat) -> bool
    decreases ts.len() - i,
{
    if i < 0 || i >= ts.len() {
        false
    } else {
        let k = ts[i].kind;
        if k == TokenKind::Comma && depth == 0 {
            true
        } else if is_opener(k) {
            spec_has_top_comma(ts, i + 1, depth + 1)
        } else if k == TokenKind::Close || k == TokenKind::CloseBracket || k
            == TokenKind::CloseBrace {
            if depth == 0 {
                false
            } else {
                spec_has_top_comma(ts, i + 1, (depth - 1) as nat)
            }
        } else {
            spec_has_top_comma(ts, i + 1, depth)
        }
    }
}

/// The parameter names `p, q, ...)` of a function definition, from `i` to
/// the closing parenthesis, and the position after it.
pub open spec fn spec_params(ts: Seq<Token>, s: Seq<char>, i: int) -> Option<(Seq<SpecTree>, int)>
    decreases ts.len() - i,
{
    if is_kind(ts, i, TokenKind::Close) {
        Some((Seq::empty(), i + 1))
    } else if is_name_word(ts, s, i) {
        if is_kind(ts, i + 1, TokenKind::Comma) {
            match spec_params(ts, s, i + 2) {
                Some((r, k)) => Some((seq![atom_at(ts, s, i)] + r, k)),
                None => None,
            }
        } else if is_kind(ts, i + 1, TokenKind::Close) {
            Some((seq![atom_at(ts, s, i)], i + 2))
        } else {
            None
        }
    } else {
        None
    }
}

pub open spec fn is_let_keyword(w: Seq<char>) -> bool {
    w == "let"@ || w == "let*"@ || w == "letrec"@
}

/// `let NAME =` (or `let*`, `letrec`) begins a let form at `i`; so does
/// `let {`, a let without bindings.
pub open spec fn let_head(ts: Seq<Token>, s: Seq<char>, i: int) -> bool {
    &&& is_kind(ts, i, TokenKind::Word)
    &&& is_let_keyword(token_text(s, ts[i]))
    &&& ((is_name_word(ts, s, i + 1) && is_word(ts, s, i + 2, "="@)) || is_kind(
        ts,
        i + 1,
        TokenKind::OpenBrace,
    ))
}

/// The bindings of the let form at `i`: none when the body follows the
/// keyword, else the assignments after it.
pub open spec fn spec_let_bindings(ts: Seq<Token>, s: Seq<char>, i: int) -> Option<
    (Seq<SpecTree>, int),
>
    decreases ts.len() - (i + 1), 1nat,
{
    if is_kind(ts, i + 1, TokenKind::OpenBrace) {
        Some((Seq::empty(), i + 1))
    } else {
        spec_assignments(ts, s, i + 1)
    }
}

/// `cond {` begins a cond form at `i`.
pub open spec fn cond_head(ts: Seq<Token>, s: Seq<char>, i: int) -> bool {
    is_word(ts, s, i, "cond"@) && is_kind(ts, i + 1, TokenKind::OpenBrace)
}

/// `define NAME(params) {` begins a function definition at `i`.
pub open spec fn define_function_head(ts: Seq<Token>, s: Seq<char>, i: int) -> bool {
    &&& is_word(ts, s, i, "define"@)
    &&& is_name_word(ts, s, i + 1)
    &&& is_kind(ts, i + 2, TokenKind::Open)
    &&& spec_params(ts, s, i + 3) matches Some((_, j)) && is_kind(ts, j, TokenKind::OpenBrace)
}

/// `define NAME =` begins a value definition at `i`.
pub open spec fn define_value_head(ts: Seq<Token>, s: Seq<char>, i: int) -> bool {
    &&& is_word(ts, s, i, "define"@)
    &&& is_name_word(ts, s, i + 1)
    &&& is_word(ts, s, i + 2, "="@)
}

/// The sequence of expressions from `i` up to the first token that ends
/// the sequence or begins no expression, and that token's position.
pub open spec fn spec_items(ts: Seq<Token>, s: Seq<char>, i: int) -> (Seq<SpecTree>, int)
    decreases ts.len() - i, 5nat,
{
    if i < 0 || i >= ts.len() || is_closer(ts[i].kind) {
        (Seq::empty(), i)
    } else {
        match spec_item(ts, s, i) {
            Some((t, j)) => if i < j <= ts.len() {
                let rest = spec_items(ts, s, j);
                (seq![t] + rest.0, rest.1)
            } else {
                (Seq::empty(), i)
            },
            None => (Seq::empty(), i),
        }
    }
}

/// One expression of a sequence; a let form without braces here takes the
/// rest of the sequence as its body.
pub open spec fn spec_item(ts: Seq<Token>, s: Seq<char>, i: int) -> Option<(SpecTree, int)>
    decreases ts.len() - i, 4nat,
{
    if let_head(ts, s, i) {
        spec_let(ts, s, i, true)
    } else {
        spec_expr(ts, s, i)
    }
}

/// `let NAME = value, ... { body }`: `(let ((NAME value) ...) body...)`;
/// `let { body }`: `(let () body...)`.
pub open spec fn spec_let(ts: Seq<Token>, s: Seq<char>, i: int, unscoped: bool) -> Option<
    (SpecTree, int),
>
    decreases ts.len() - i, 0nat,
{
    if !let_head(ts, s, i) {
        None
    } else {
        match spec_let_bindings(ts, s, i) {
            Some((assignments, j)) => if i + 1 <= j <= ts.len() {
                let head = seq![atom_at(ts, s, i), SpecTree::List(assignments)];
                if is_kind(ts, j, TokenKind::OpenBrace) {
                    let body = spec_items(ts, s, j + 1);
                    if is_kind(ts, body.1, TokenKind::CloseBrace) {
                        Some((SpecTree::List(head + body.0), body.1 + 1))
                    } else {
                        None
                    }
                } else if unscoped {
                    let body = spec_items(ts, s, j);
                    Some((SpecTree::List(head + body.0), body.1))
                } else {
                    None
                }
            } else {
                None
            },
            None => None,
        }
    }
}

/// `NAME = value, ...`: the list of `(NAME value)` pairs; a comma may end
/// the list where the body's brace follows.
pub open spec fn spec_assignments(ts: Seq<Token>, s: Seq<char>, i: int) -> Option<
    (Seq<SpecTree>, int),
>
    decreases ts.len() - i, 0nat,
{
    if !(is_name_word(ts, s, i) && is_word(ts, s, i + 1, "="@)) {
        None
    } else {
        match spec_expr(ts, s, i + 2) {
            Some((v, j)) => if i + 2 < j <= ts.len() {
                let a = SpecTree::List(seq![atom_at(ts, s, i), v]);
                if is_kind(ts, j, TokenKind::Comma) {
                    if is_kind(ts, j + 1, TokenKind::OpenBrace) {
                        Some((seq![a], j + 1))
                    } else {
                        match spec_assignments(ts, s, j + 1) {
                            Some((r, k)) => Some((seq![a] + r, k)),
                            None => None,
                        }
                    }
                } else {
                    Some((seq![a], j))
                }
            } else {
                None
            },
            None => None,
        }
    }
}

/// An infix expression: operands joined by operators, grouped by
/// precedence.
pub open spec fn spec_expr(ts: Seq<Token>, s: Seq<char>, i: int) -> Option<(SpecTree, int)>
    decreases ts.len() - i, 3nat,
{
    match spec_term(ts, s, i, false) {
        Some((t, j)) => if i < j <= ts.len() {
            match spec_chain(ts, s, j) {
                Some((xs, ops, k)) => Some((spec_climb(seq![t] + xs, ops), k)),
                None => None,
            }
        } else {
            None
        },
        None => None,
    }
}

/// The operator at `i`, if the token there is one.
pub open spec fn operator_at(ts: Seq<Token>, s: Seq<char>, i: int) -> Option<Operator> {
    if is_kind(ts, i, TokenKind::Word) {
        operator_of(token_text(s, ts[i]))
    } else {
        None
    }
}

/// The operators and operands that follow the first operand of an infix
/// expression.
pub open spec fn spec_chain(ts: Seq<Token>, s: Seq<char>, i: int) -> Option<
    (Seq<SpecTree>, Seq<Operator>, int),
>
    decreases ts.len() - i, 0nat,
{
    match operator_at(ts, s, i) {
        Some(op) => match spec_term(ts, s, i + 1, false) {
            Some((t, j)) => if i + 1 < j <= ts.len() {
                match spec_chain(ts, s, j) {
                    Some((xs, os, k)) => Some((seq![t] + xs, seq![op] + os, k)),
                    None => None,
                }
            } else {
                None
            },
            None => None,
        },
        None => Some((Seq::empty(), Seq::empty(), i)),
    }
}

/// A term: a list literal, a quoted datum, a string, a braced expression,
/// a Scheme expression, a cond, define or let form, a name, a call, an
/// index, or (in a Scheme expression, or when it is no operator) any other
/// word.
pub open spec fn spec_term(ts: Seq<Token>, s: Seq<char>, i: int, in_scheme: bool) -> Option<
    (SpecTree, int),
>
    decreases ts.len() - i, 1nat,
{
    if i < 0 || i >= ts.len() {
        None
    } else {
        let k = ts[i].kind;
        if k == TokenKind::OpenBracket {
            spec_list(ts, s, i)
        } else if k == TokenKind::Quote || k == TokenKind::Text {
            Some((atom_at(ts, s, i), i + 1))
        } else if k == TokenKind::OpenBrace {
            match spec_expr(ts, s, i + 1) {
                Some((t, j)) => if i + 1 < j < ts.len() && ts[j].kind == TokenKind::CloseBrace {
                    spec_postfix(ts, s, t, j + 1)
                } else {
                    None
                },
                None => None,
            }
        } else if k == TokenKind::Open {
            match spec_scheme_expression(ts, s, i) {
                Some((t, j)) => if i < j <= ts.len() {
                    spec_postfix(ts, s, t, j)
                } else {
                    None
                },
                None => None,
            }
        } else if k == TokenKind::Word {
            let w = token_text(s, ts[i]);
            if cond_head(ts, s, i) {
                spec_cond(ts, s, i)
            } else if define_function_head(ts, s, i) || define_value_head(ts, s, i) {
                spec_define(ts, s, i)
            } else if let_head(ts, s, i) {
                spec_let(ts, s, i, false)
            } else if is_name(w) {
                spec_postfix(ts, s, atom_at(ts, s, i), i + 1)
            } else if in_scheme || operator_of(w) is None {
                Some((atom_at(ts, s, i), i + 1))
            } else {
                None
            }
        } else {
            None
        }
    }
}

/// `( items )`: the list of the items.
pub open spec fn spec_scheme_expression(ts: Seq<Token>, s: Seq<char>, i: int) -> Option<
    (SpecTree, int),
>
    decreases ts.len() - i, 0nat,
{
    if !is_kind(ts, i, TokenKind::Open) {
        None
    } else {
        let items = spec_scheme_items(ts, s, i + 1);
        if is_kind(ts, items.1, TokenKind::Close) {
            Some((SpecTree::List(items.0), items.1 + 1))
        } else {
            None
        }
    }
}

/// The items of a Scheme expression, up to the first token that ends the
/// sequence or begins no term.
pub open spec fn spec_scheme_items(ts: Seq<Token>, s: Seq<char>, i: int) -> (Seq<SpecTree>, int)
    decreases ts.len() - i, 2nat,
{
    if i < 0 || i >= ts.len() || is_closer(ts[i].kind) {
        (Seq::empty(), i)
    } else {
        match spec_term(ts, s, i, true) {
            Some((t, j)) => if i < j <= ts.len() {
                let rest = spec_scheme_items(ts, s, j);
                (seq![t] + rest.0, rest.1)
            } else {
                (Seq::empty(), i)
            },
            None => (Seq::empty(), i),
        }
    }
}

/// What follows a name, a braced expression or a Scheme expression `t`: an
/// argument list that holds a comma makes a call `(t args...)`; an index
/// range makes an index, and one whose number does not fit in a `usize` is
/// an error; anything else leaves `t` as it is.
pub open spec fn spec_postfix(ts: Seq<Token>, s: Seq<char>, t: SpecTree, i: int) -> Option<
    (SpecTree, int),
>
    decreases ts.len() - i, 1nat,
{
    if is_kind(ts, i, TokenKind::Open) && spec_has_top_comma(ts, i + 1, 0) {
        spec_call(ts, s, t, i)
    } else if is_kind(ts, i, TokenKind::OpenBracket) && is_kind(ts, i + 1, TokenKind::Word)
        && is_kind(ts, i + 2, TokenKind::CloseBracket) && range_shaped(token_text(s, ts[i + 1])) {
        match spec_parse_range(token_text(s, ts[i + 1])) {
            Some(r) => Some((spec_index_tree(t, r), i + 3)),
            None => None,
        }
    } else {
        Some((t, i))
    }
}

/// A call of `callee` with the argument list that opens at `i`:
/// `(callee args...)`.
pub open spec fn spec_call(ts: Seq<Token>, s: Seq<char>, callee: SpecTree, i: int) -> Option<
    (SpecTree, int),
>
    decreases ts.len() - i, 0nat,
{
    if !is_kind(ts, i, TokenKind::Open) {
        None
    } else {
        match spec_args(ts, s, i + 1, TokenKind::Close) {
            Some((args, j)) => Some((SpecTree::List(seq![callee] + args), j)),
            None => None,
        }
    }
}

/// A comma separated list of expressions closed by `closer`; it may be
/// empty, written with nothing or a lone comma, and may end in a comma.
pub open spec fn spec_args(ts: Seq<Token>, s: Seq<char>, i: int, closer: TokenKind) -> Option<
    (Seq<SpecTree>, int),
>
    decreases ts.len() - i, 5nat,
{
    if is_kind(ts, i, closer) {
        Some((Seq::empty(), i + 1))
    } else if is_kind(ts, i, TokenKind::Comma) && is_kind(ts, i + 1, closer) {
        Some((Seq::empty(), i + 2))
    } else {
        spec_args_rest(ts, s, i, closer)
    }
}

/// A nonempty comma separated list of expressions closed by `closer`.
pub open spec fn spec_args_rest(ts: Seq<Token>, s: Seq<char>, i: int, closer: TokenKind) -> Option<
    (Seq<SpecTree>, int),
>
    decreases ts.len() - i, 4nat,
{
    match spec_expr(ts, s, i) {
        Some((t, j)) => if i < j <= ts.len() {
            if is_kind(ts, j, TokenKind::Comma) {
                if is_kind(ts, j + 1, closer) {
                    Some((seq![t], j + 2))
                } else {
                    match spec_args_rest(ts, s, j + 1, closer) {
                        Some((r, k)) => Some((seq![t] + r, k)),
                        None => None,
                    }
                }
            } else if is_kind(ts, j, closer) {
                Some((seq![t], j + 1))
            } else {
                None
            }
        } else {
            None
        },
        None => None,
    }
}

/// `[a, b, ...]`: `(list a b ...)`.
pub open spec fn spec_list(ts: Seq<Token>, s: Seq<char>, i: int) -> Option<(SpecTree, int)>
    decreases ts.len() - i, 0nat,
{
    if !is_kind(ts, i, TokenKind::OpenBracket) {
        None
    } else {
        match spec_args(ts, s, i + 1, TokenKind::CloseBracket) {
            Some((elements, j)) => Some((list_of(elements), j)),
            None => None,
        }
    }
}

/// `cond { a => b, ... }`: `(cond (a b) ...)`.
pub open spec fn spec_cond(ts: Seq<Token>, s: Seq<char>, i: int) -> Option<(SpecTree, int)>
    decreases ts.len() - i, 0nat,
{
    if !cond_head(ts, s, i) {
        None
    } else {
        match spec_cond_arms(ts, s, i + 2) {
            Some((arms, j)) => Some(
                (SpecTree::List(seq![SpecTree::Atom("cond"@)] + arms), j),
            ),
            None => None,
        }
    }
}

/// The arms `a => b` of a cond, separated by commas, up to the closing brace.
pub open spec fn spec_cond_arms(ts: Seq<Token>, s: Seq<char>, i: int) -> Option<
    (Seq<SpecTree>, int),
>
    decreases ts.len() - i, 4nat,
{
    if is_kind(ts, i, TokenKind::CloseBrace) {
        Some((Seq::empty(), i + 1))
    } else {
        match spec_expr(ts, s, i) {
            Some((a, j)) => if i < j < ts.len() && is_word(ts, s, j, "=>"@) {
                match spec_expr(ts, s, j + 1) {
                    Some((b, k)) => if j + 1 < k <= ts.len() {
                        let arm = SpecTree::List(seq![a, b]);
                        if is_kind(ts, k, TokenKind::Comma) {
                            match spec_cond_arms(ts, s, k + 1) {
                                Some((r, m)) => Some((seq![arm] + r, m)),
                                None => None,
                            }
                        } else if is_kind(ts, k, TokenKind::CloseBrace) {
                            Some((seq![arm], k + 1))
                        } else {
                            None
                        }
                    } else {
                        None
                    },
                    None => None,
                }
            } else {
                None
            },
            None => None,
        }
    }
}

/// `define NAME(params) { body }`: `(define (NAME params...) body...)`;
/// `define NAME = value`: `(define NAME value)`.
pub open spec fn spec_define(ts: Seq<Token>, s: Seq<char>, i: int) -> Option<(SpecTree, int)>
    decreases ts.len() - i, 0nat,
{
    if define_function_head(ts, s, i) {
        let (params, j) = spec_params(ts, s, i + 3)->0;
        if i + 3 < j < ts.len() {
            let body = spec_items(ts, s, j + 1);
            if is_kind(ts, body.1, TokenKind::CloseBrace) {
                let signature = SpecTree::List(seq![atom_at(ts, s, i + 1)] + params);
                Some(
                    (
                        SpecTree::List(seq![SpecTree::Atom("define"@), signature] + body.0),
                        body.1 + 1,
                    ),
                )
            } else {
                None
            }
        } else {
            None
        }
    } else if define_value_head(ts, s, i) {
        match spec_expr(ts, s, i + 3) {
            Some((v, j)) => Some(
                (SpecTree::List(seq![SpecTree::Atom("define"@), atom_at(ts, s, i + 1), v]), j),
            ),
            None => None,
        }
    } else {
        None
    }
}

/// The tree of a whole program: the list of its top-level expressions, or
/// the position of the first token that begins no expression.
pub open spec fn spec_parse_tokens(ts: Seq<Token>, s: Seq<char>) -> Result<SpecTree, int> {
    let items = spec_items(ts, s, 0);
    if items.1 == ts.len() {
        Ok(SpecTree::List(items.0))
    } else {
        Err(items.1)
    }
}

} // verus!

verus! {

/// `acc` followed by the trees of a sequence result.
pub open spec fn prepend_trees(acc: Seq<SpecTree>, r: Option<(Seq<SpecTree>, int)>) -> Option<
    (Seq<SpecTree>, int),
> {
    match r {
        Some((x, k)) => Some((acc + x, k)),
        None => None,
    }
}

/// `xs` and `os` followed by the operands and operators of a chain result.
pub open spec fn prepend_chain(
    xs: Seq<SpecTree>,
    os: Seq<Operator>,
    r: Option<(Seq<SpecTree>, Seq<Operator>, int)>,
) -> Option<(Seq<SpecTree>, Seq<Operator>, int)> {
    match r {
        Some((x, o, k)) => Some((xs + x, os + o, k)),
        None => None,
    }
}

} // verus!
