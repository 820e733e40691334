//! Scheme code passes through FUP unchanged: the printed Scheme text of a
//! tree parses back to that tree.
use vstd::prelude::*;

use crate::fup::syntax::{
    cond_head, define_function_head, define_value_head, is_closer, is_let_keyword,
    is_name, let_head, operator_at, spec_chain, spec_expr, spec_has_top_comma,
    spec_item, spec_items, spec_postfix, spec_scheme_expression,
    spec_scheme_items, spec_term, token_text,
};
use crate::grammar::{
    next_depth, repeat_chars, spec_fmt, spec_fmt_children, spec_fmt_sequence, spec_fmt_top_level,
    spec_line_break, starts_new_line, top_level_separator,
    SpecTree,
};
use crate::fup::{spec_parse_input, ParseError};
use crate::fup::syntax::{operator_of, spec_params, Operator};
use crate::lexer::{
    is_delimiter, is_space, spec_lex_from, spec_word_end, spec_word_run_end, Token,
    TokenKind,
};

verus! {

/// A word that reads back as itself: nonempty, with no white space or
/// delimiter in it, not a quoted datum, and not a bare `#\`.
pub open spec fn plain_word(w: Seq<char>) -> bool {
    &&& w.len() > 0
    &&& forall|k: int| 0 <= k < w.len() ==> !#[trigger] is_delimiter(w[k])
    &&& w[0] != '\''
    &&& (w.len() >= 2 && w[0] == '#' && w[1] == '\\' ==> w.len() >= 3)
}

/// Words that begin a definition when a name and `=` follow them.
pub open spec fn is_definer(w: Seq<char>) -> bool {
    w == "define"@ || is_let_keyword(w)
}

/// The children `k`, `k + 1`, `k + 2` read `define NAME =` (or a let
/// keyword in place of `define`): the FUP definition syntax.
pub open spec fn definition_pattern(ch: Seq<SpecTree>, k: int) -> bool {
    &&& 0 <= k
    &&& k + 2 < ch.len()
    &&& ch[k] is Atom
    &&& is_definer(ch[k]->Atom_0)
    &&& ch[k + 1] is Atom
    &&& is_name(ch[k + 1]->Atom_0)
    &&& ch[k + 2] == SpecTree::Atom("="@)
}

/// A tree of plain words in which no list holds the FUP definition syntax.
pub open spec fn plain_tree(t: SpecTree) -> bool
    decreases t,
{
    match t {
        SpecTree::Atom(w) => plain_word(w),
        SpecTree::List(ch) => plain_children(ch) && no_definition(ch),
    }
}

/// Each of the trees `ch` is plain.
pub open spec fn plain_children(ch: Seq<SpecTree>) -> bool
    decreases ch,
{
    ch.len() == 0 || (plain_tree(ch[0]) && plain_children(ch.drop_first()))
}

/// No three of the children `ch` in a row read as a definition.
pub open spec fn no_definition(ch: Seq<SpecTree>) -> bool {
    forall|k: int| !#[trigger] definition_pattern(ch, k)
}

/// The number of tokens of the printed tree.
pub open spec fn token_count(t: SpecTree) -> nat
    decreases t,
{
    match t {
        SpecTree::Atom(_) => 1,
        SpecTree::List(ch) => 2 + children_token_count(ch),
    }
}

/// The number of tokens of the printed trees `ch`.
pub open spec fn children_token_count(ch: Seq<SpecTree>) -> nat
    decreases ch,
{
    if ch.len() == 0 {
        0
    } else {
        token_count(ch[0]) + children_token_count(ch.drop_first())
    }
}

/// The tokens `x` begin with those of the printed tree `t`.
pub open spec fn spells(x: Seq<Token>, s: Seq<char>, t: SpecTree) -> bool
    decreases t,
{
    match t {
        SpecTree::Atom(w) => x.len() > 0 && x[0].kind == TokenKind::Word && token_text(s, x[0])
            == w,
        SpecTree::List(ch) => {
            &&& x.len() > 1 + children_token_count(ch)
            &&& x[0].kind == TokenKind::Open
            &&& spells_children(x.skip(1), s, ch)
            &&& x[1 + children_token_count(ch) as int].kind == TokenKind::Close
        },
    }
}

/// The tokens `x` begin with those of the printed trees `ch`, in order.
pub open spec fn spells_children(x: Seq<Token>, s: Seq<char>, ch: Seq<SpecTree>) -> bool
    decreases ch,
{
    ch.len() == 0 || (spells(x, s, ch[0]) && spells_children(
        x.skip(token_count(ch[0]) as int),
        s,
        ch.drop_first(),
    ))
}

/// Lexing from `i` gives the tokens of `t` followed by the result of lexing
/// from `e`.
pub open spec fn lexes_as(s: Seq<char>, i: int, e: int, t: SpecTree) -> bool {
    match spec_lex_from(s, e) {
        Ok(r) => spec_lex_from(s, i) matches Ok(x) && x.len() == token_count(t) + r.len() && x.skip(
            token_count(t) as int,
        ) == r && spells(x, s, t),
        Err(p) => spec_lex_from(s, i) == Err::<Seq<Token>, int>(p),
    }
}

/// Lexing from `i` gives the tokens of the trees `ch` followed by the result
/// of lexing from `e`.
pub open spec fn lexes_children_as(s: Seq<char>, i: int, e: int, ch: Seq<SpecTree>) -> bool {
    match spec_lex_from(s, e) {
        Ok(r) => spec_lex_from(s, i) matches Ok(x) && x.len() == children_token_count(ch) + r.len()
            && x.skip(children_token_count(ch) as int) == r && spells_children(x, s, ch),
        Err(p) => spec_lex_from(s, i) == Err::<Seq<Token>, int>(p),
    }
}

/// Every character of `w` is white space.
pub open spec fn all_space(w: Seq<char>) -> bool {
    forall|k: int| 0 <= k < w.len() ==> #[trigger] is_space(w[k])
}

proof fn lemma_lex_skip_spaces(s: Seq<char>, i: int, e: int)
    requires
        0 <= i <= e <= s.len(),
        forall|k: int| i <= k < e ==> #[trigger] is_space(s[k]),
    ensures
        spec_lex_from(s, i) == spec_lex_from(s, e),
    decreases e - i,
{
    if i < e {
        lemma_lex_skip_spaces(s, i + 1, e);
    }
}

proof fn lemma_word_run_end(s: Seq<char>, a: int, e: int)
    requires
        0 <= a <= e <= s.len(),
        forall|k: int| a <= k < e ==> !#[trigger] is_delimiter(s[k]),
        e == s.len() || is_delimiter(s[e]),
    ensures
        spec_word_run_end(s, a) == e,
    decreases e - a,
{
    if a < e {
        lemma_word_run_end(s, a + 1, e);
    }
}

/// A plain word followed by a delimiter lexes as one word token.
proof fn lemma_lex_word(s: Seq<char>, i: int, w: Seq<char>)
    requires
        plain_word(w),
        0 <= i,
        i + w.len() <= s.len() <= usize::MAX,
        s.subrange(i, i + w.len()) == w,
        i + w.len() == s.len() || is_delimiter(s[i + w.len()]),
    ensures
        lexes_as(s, i, i + w.len(), SpecTree::Atom(w)),
{
    let e = i + w.len();
    assert forall|k: int| i <= k < e implies !#[trigger] is_delimiter(s[k]) by {
        assert(s[k] == w[k - i]);
    }
    assert(s[i] == w[0]);
    if w.len() >= 2 && s[i] == '#' && s[i + 1] == '\\' {
        assert(s[i + 1] == w[1]);
    }
    if i + 2 < s.len() && s[i] == '#' && s[i + 1] == '\\' {
        assert(s[i + 1] == w[1]);
        lemma_word_run_end(s, i + 3, e);
    } else {
        lemma_word_run_end(s, i, e);
    }
    assert(spec_word_end(s, i) == e);
    let t = Token { kind: TokenKind::Word, start: i as usize, end: e as usize };
    assert(token_text(s, t) =~= w);
    match spec_lex_from(s, e) {
        Ok(r) => {
            let x = seq![t] + r;
            assert(spec_lex_from(s, i) == Ok::<Seq<Token>, int>(x));
            assert(x.skip(1) =~= r);
        },
        Err(p) => {},
    }
}


proof fn lemma_repeat_space(indent: Seq<char>, n: nat)
    requires
        all_space(indent),
    ensures
        all_space(repeat_chars(indent, n)),
    decreases n,
{
    if n > 0 {
        lemma_repeat_space(indent, (n - 1) as nat);
        let r = repeat_chars(indent, (n - 1) as nat);
        let full = repeat_chars(indent, n);
        assert forall|k: int| 0 <= k < full.len() implies #[trigger] is_space(full[k]) by {
            if k < r.len() {
                assert(full[k] == r[k]);
            } else {
                assert(full[k] == indent[k - r.len()]);
            }
        }
    }
}

proof fn lemma_line_break_space(depth: usize, indent: Seq<char>)
    requires
        all_space(indent),
    ensures
        all_space(spec_line_break(depth, indent)),
        spec_line_break(depth, indent).len() >= 1,
        spec_line_break(depth, indent)[0] == '\n',
{
    reveal_strlit("\n");
    lemma_repeat_space(indent, depth as nat);
    let r = repeat_chars(indent, depth as nat);
    let lb = spec_line_break(depth, indent);
    assert forall|k: int| 0 <= k < lb.len() implies #[trigger] is_space(lb[k]) by {
        if k == 0 {
            assert(lb[0] == '\n');
        } else {
            assert(lb[k] == r[k - 1]);
        }
    }
}

proof fn lemma_fmt_children_first(ch: Seq<SpecTree>, depth: usize, indent: Seq<char>)
    requires
        ch.len() >= 2,
    ensures
        spec_fmt_children(ch, depth, indent).0 == spec_fmt(ch[0], depth, indent).0 + " "@
            + spec_fmt_children(ch.drop_first(), depth, indent).0,
    decreases ch.len(),
{
    if ch.len() == 2 {
        assert(ch.drop_last()[0] == ch[0]);
        assert(ch.drop_first()[0] == ch[1]);
        assert(ch.last() == ch[1]);
        assert(spec_fmt_children(ch.drop_last(), depth, indent) == spec_fmt(ch[0], depth, indent));
        assert(spec_fmt_children(ch.drop_first(), depth, indent) == spec_fmt(ch[1], depth, indent));
    } else {
        lemma_fmt_children_first(ch.drop_last(), depth, indent);
        assert(ch.drop_last().drop_first() =~= ch.drop_first().drop_last());
        assert(ch.drop_first().last() == ch.last());
        assert(ch.drop_last()[0] == ch[0]);
        let a = spec_fmt(ch[0], depth, indent).0;
        let b = spec_fmt_children(ch.drop_first().drop_last(), depth, indent).0;
        let c = spec_fmt(ch.last(), depth, indent).0;
        assert(spec_fmt_children(ch.drop_first(), depth, indent).0 == b + " "@ + c);
        assert(spec_fmt_children(ch.drop_last(), depth, indent).0 == a + " "@ + b);
        assert(a + " "@ + b + " "@ + c =~= a + " "@ + (b + " "@ + c));
    }
}

proof fn lemma_fmt_sequence_first(ch: Seq<SpecTree>, indent: Seq<char>)
    requires
        ch.len() >= 1,
    ensures
        ch.len() == 1 ==> spec_fmt_sequence(ch, indent) == spec_fmt(ch[0], 0, indent).0,
        ch.len() >= 2 ==> spec_fmt_sequence(ch, indent) == spec_fmt(ch[0], 0, indent).0
            + top_level_separator(ch[1]) + spec_fmt_sequence(ch.drop_first(), indent),
    decreases ch.len(),
{
    if ch.len() == 2 {
        assert(ch.drop_last()[0] == ch[0]);
        assert(ch.drop_first()[0] == ch[1]);
        assert(ch.last() == ch[1]);
        assert(spec_fmt_sequence(ch.drop_last(), indent) == spec_fmt(ch[0], 0, indent).0);
        assert(spec_fmt_sequence(ch.drop_first(), indent) == spec_fmt(ch[1], 0, indent).0);
    } else if ch.len() > 2 {
        lemma_fmt_sequence_first(ch.drop_last(), indent);
        assert(ch.drop_last().drop_first() =~= ch.drop_first().drop_last());
        assert(ch.drop_first().last() == ch.last());
        assert(ch.drop_last()[0] == ch[0]);
        assert(ch.drop_last()[1] == ch[1]);
        let a = spec_fmt(ch[0], 0, indent).0;
        let p = top_level_separator(ch[1]);
        let b = spec_fmt_sequence(ch.drop_first().drop_last(), indent);
        let q = top_level_separator(ch.last());
        let c = spec_fmt(ch.last(), 0, indent).0;
        assert(spec_fmt_sequence(ch.drop_first(), indent) == b + q + c);
        assert(spec_fmt_sequence(ch.drop_last(), indent) == a + p + b);
        assert(a + p + b + q + c =~= a + p + (b + q + c));
    }
}

/// The tokens of `t` followed by those of `rest` are the tokens of both.
proof fn lemma_lex_compose(s: Seq<char>, i: int, m: int, e: int, t: SpecTree, rest: Seq<SpecTree>)
    requires
        lexes_as(s, i, m, t),
        lexes_children_as(s, m, e, rest),
    ensures
        lexes_children_as(s, i, e, seq![t] + rest),
{
    let ch = seq![t] + rest;
    assert(ch[0] == t);
    assert(ch.drop_first() =~= rest);
    assert(children_token_count(ch) == token_count(t) + children_token_count(rest));
    match spec_lex_from(s, e) {
        Ok(r) => {
            let y = spec_lex_from(s, m)->Ok_0;
            let x = spec_lex_from(s, i)->Ok_0;
            assert(x.skip(children_token_count(ch) as int) =~= y.skip(
                children_token_count(rest) as int,
            ));
        },
        Err(p) => {},
    }
}


proof fn lemma_subrange_split(s: Seq<char>, i: int, a: Seq<char>, b: Seq<char>)
    requires
        0 <= i,
        i + a.len() + b.len() <= s.len(),
        s.subrange(i, i + a.len() + b.len()) == a + b,
    ensures
        s.subrange(i, i + a.len()) == a,
        s.subrange(i + a.len(), i + a.len() + b.len()) == b,
{
    let n = a.len() + b.len();
    assert forall|k: int| 0 <= k < a.len() implies s.subrange(i, i + a.len())[k] == a[k] by {
        assert(s.subrange(i, i + n)[k] == (a + b)[k]);
    }
    assert forall|k: int| 0 <= k < b.len() implies s.subrange(i + a.len(), i + n)[k] == b[k] by {
        assert(s.subrange(i, i + n)[a.len() + k] == (a + b)[a.len() + k]);
    }
    assert(s.subrange(i, i + a.len()) =~= a);
    assert(s.subrange(i + a.len(), i + n) =~= b);
}

proof fn lemma_subrange_spaces(s: Seq<char>, i: int, w: Seq<char>)
    requires
        0 <= i,
        i + w.len() <= s.len(),
        s.subrange(i, i + w.len()) == w,
        all_space(w),
    ensures
        forall|k: int| i <= k < i + w.len() ==> #[trigger] is_space(s[k]),
{
    assert forall|k: int| i <= k < i + w.len() implies #[trigger] is_space(s[k]) by {
        assert(s.subrange(i, i + w.len())[k - i] == w[k - i]);
    }
}

/// The printed text of a plain tree lexes as the tree's tokens.
proof fn lemma_lex_tree(s: Seq<char>, i: int, t: SpecTree, depth: usize, indent: Seq<char>)
    requires
        plain_tree(t),
        all_space(indent),
        0 <= i,
        i + spec_fmt(t, depth, indent).0.len() <= s.len() <= usize::MAX,
        s.subrange(i, i + spec_fmt(t, depth, indent).0.len()) == spec_fmt(t, depth, indent).0,
        t is Atom ==> i + spec_fmt(t, depth, indent).0.len() == s.len() || is_delimiter(
            s[i + spec_fmt(t, depth, indent).0.len()],
        ),
    ensures
        lexes_as(s, i, i + spec_fmt(t, depth, indent).0.len(), t),
    decreases t, 2nat,
{
    match t {
        SpecTree::Atom(w) => {
            lemma_lex_word(s, i, w);
        },
        SpecTree::List(ch) => {
            if ch.len() == 0 {
                reveal_strlit("()");
                assert(spec_fmt(t, depth, indent).0 == "()"@);
                assert(ch =~= Seq::<SpecTree>::empty());
                lemma_lex_empty_list(s, i);
            } else {
                lemma_lex_list(s, i, ch, depth, indent);
            }
        },
    }
}

proof fn lemma_lex_empty_list(s: Seq<char>, i: int)
    requires
        0 <= i,
        i + 2 <= s.len() <= usize::MAX,
        s.subrange(i, i + 2) == "()"@,
    ensures
        lexes_as(s, i, i + 2, SpecTree::List(Seq::empty())),
{
    reveal_strlit("()");
    assert(s.subrange(i, i + 2)[0] == s[i]);
    assert(s.subrange(i, i + 2)[1] == s[i + 1]);
    assert(s[i] == '(');
    assert(s[i + 1] == ')');
    let t1 = Token { kind: TokenKind::Open, start: i as usize, end: (i + 1) as usize };
    let t2 = Token { kind: TokenKind::Close, start: (i + 1) as usize, end: (i + 2) as usize };
    match spec_lex_from(s, i + 2) {
        Ok(r) => {
            assert(spec_lex_from(s, i + 1) == Ok::<Seq<Token>, int>(seq![t2] + r));
            assert(spec_lex_from(s, i) == Ok::<Seq<Token>, int>(seq![t1] + (seq![t2] + r)));
            let x = seq![t1] + (seq![t2] + r);
            assert(x.skip(2) =~= r);
        },
        Err(q) => {
            assert(spec_lex_from(s, i + 1) == Err::<Seq<Token>, int>(q));
        },
    }
}

/// The printed text of a nonempty list of plain trees lexes as its tokens.
proof fn lemma_lex_list(s: Seq<char>, i: int, ch: Seq<SpecTree>, depth: usize, indent: Seq<char>)
    requires
        ch.len() > 0,
        plain_children(ch),
        all_space(indent),
        0 <= i,
        i + spec_fmt(SpecTree::List(ch), depth, indent).0.len() <= s.len() <= usize::MAX,
        s.subrange(i, i + spec_fmt(SpecTree::List(ch), depth, indent).0.len()) == spec_fmt(
            SpecTree::List(ch),
            depth,
            indent,
        ).0,
    ensures
        lexes_as(
            s,
            i,
            i + spec_fmt(SpecTree::List(ch), depth, indent).0.len(),
            SpecTree::List(ch),
        ),
    decreases ch, 1nat,
{
    reveal_strlit("(");
    reveal_strlit(")");
    let t = SpecTree::List(ch);
    let lb = spec_line_break(depth, indent);
    let cd = next_depth(depth);
    let inner = spec_fmt_children(ch, cd, indent);
    let close = if inner.1 {
        lb + ")"@
    } else {
        ")"@
    };
    let text = spec_fmt(t, depth, indent).0;
    assert(text == lb + "("@ + inner.0 + close);
    let p = i + lb.len();
    let a = p + 1;
    let b = a + inner.0.len();
    let e = b + close.len();
    let c = e - 1;
    lemma_line_break_space(depth, indent);
    lemma_subrange_split(s, i, lb + "("@ + inner.0, close);
    lemma_subrange_split(s, i, lb + "("@, inner.0);
    lemma_subrange_split(s, i, lb, "("@);
    assert(s.subrange(p, a)[0] == s[p]);
    assert(s[p] == '(');
    lemma_subrange_spaces(s, i, lb);
    lemma_lex_skip_spaces(s, i, p);
    if inner.1 {
        lemma_subrange_split(s, b, lb, ")"@);
        lemma_subrange_spaces(s, b, lb);
        lemma_lex_skip_spaces(s, b, c);
        assert(s.subrange(b, b + lb.len())[0] == s[b]);
        assert(s.subrange(c, e)[0] == s[c]);
    } else {
        assert(s.subrange(b, e)[0] == s[b]);
    }
    assert(s[c] == ')');
    assert(is_delimiter(s[b]));
    lemma_lex_children(s, a, ch, cd, indent);
    let cc = children_token_count(ch);
    let topen = Token { kind: TokenKind::Open, start: p as usize, end: a as usize };
    let tclose = Token { kind: TokenKind::Close, start: c as usize, end: e as usize };
    match spec_lex_from(s, e) {
        Ok(r) => {
            assert(spec_lex_from(s, c) == Ok::<Seq<Token>, int>(seq![tclose] + r));
            let rb = seq![tclose] + r;
            assert(rb.skip(1) =~= r);
            let y = spec_lex_from(s, a)->Ok_0;
            assert(spec_lex_from(s, p) == Ok::<Seq<Token>, int>(seq![topen] + y));
            let x = seq![topen] + y;
            assert(x.skip(1) =~= y);
            assert(x.skip(cc + 2int) =~= r);
            assert(x[1 + cc as int] == y[cc as int]);
            assert(y[cc as int] == y.skip(cc as int)[0]);
        },
        Err(q) => {
            assert(spec_lex_from(s, c) == Err::<Seq<Token>, int>(q));
            assert(spec_lex_from(s, p) == Err::<Seq<Token>, int>(q));
        },
    }
}

/// The printed text of plain trees separated by spaces lexes as their
/// tokens.
proof fn lemma_lex_children(
    s: Seq<char>,
    i: int,
    ch: Seq<SpecTree>,
    depth: usize,
    indent: Seq<char>,
)
    requires
        plain_children(ch),
        all_space(indent),
        0 <= i,
        i + spec_fmt_children(ch, depth, indent).0.len() <= s.len() <= usize::MAX,
        s.subrange(i, i + spec_fmt_children(ch, depth, indent).0.len()) == spec_fmt_children(
            ch,
            depth,
            indent,
        ).0,
        ch.len() > 0 && ch.last() is Atom ==> i + spec_fmt_children(ch, depth, indent).0.len()
            == s.len() || is_delimiter(s[i + spec_fmt_children(ch, depth, indent).0.len()]),
    ensures
        lexes_children_as(s, i, i + spec_fmt_children(ch, depth, indent).0.len(), ch),
    decreases ch, 0nat,
{
    reveal_strlit(" ");
    let e = i + spec_fmt_children(ch, depth, indent).0.len();
    if ch.len() == 0 {
        match spec_lex_from(s, i) {
            Ok(r) => {
                assert(r.skip(0) =~= r);
            },
            Err(q) => {},
        }
    } else if ch.len() == 1 {
        assert(ch.last() == ch[0]);
        lemma_lex_tree(s, i, ch[0], depth, indent);
        assert(s.subrange(e, e) =~= spec_fmt_children(ch.drop_first(), depth, indent).0);
        lemma_lex_children(s, e, ch.drop_first(), depth, indent);
        lemma_lex_compose(s, i, e, e, ch[0], ch.drop_first());
        assert(seq![ch[0]] + ch.drop_first() =~= ch);
    } else {
        lemma_fmt_children_first(ch, depth, indent);
        let a = spec_fmt(ch[0], depth, indent).0;
        let rest = spec_fmt_children(ch.drop_first(), depth, indent).0;
        let m = i + a.len();
        lemma_subrange_split(s, i, a + " "@, rest);
        lemma_subrange_split(s, i, a, " "@);
        assert(s.subrange(m, m + 1)[0] == s[m]);
        assert(s[m] == ' ');
        lemma_lex_tree(s, i, ch[0], depth, indent);
        assert(ch.drop_first().last() == ch.last());
        lemma_lex_children(s, m + 1, ch.drop_first(), depth, indent);
        lemma_lex_skip_spaces(s, m, m + 1);
        lemma_lex_compose(s, i, m, e, ch[0], ch.drop_first());
        assert(seq![ch[0]] + ch.drop_first() =~= ch);
    }
}


/// A tree that may stand at the top of a program and read back as itself:
/// a list, or a name that is no operator and begins no definition.
pub open spec fn top_level_item(t: SpecTree) -> bool {
    match t {
        SpecTree::List(_) => true,
        SpecTree::Atom(w) => is_name(w) && operator_of(w) is None && !is_definer(w),
    }
}

/// Every one of the trees `ch` may stand at the top of a program.
pub open spec fn top_level_items(ch: Seq<SpecTree>) -> bool {
    forall|k: int| 0 <= k < ch.len() ==> #[trigger] top_level_item(ch[k])
}

/// The printed text of a nonempty list begins with a line break.
proof fn lemma_list_starts_new_line(t: SpecTree, depth: usize, indent: Seq<char>)
    requires
        starts_new_line(t),
        all_space(indent),
    ensures
        spec_fmt(t, depth, indent).0.len() > 0,
        spec_fmt(t, depth, indent).0[0] == '\n',
{
    lemma_line_break_space(depth, indent);
    let ch = t->List_0;
    let lb = spec_line_break(depth, indent);
    let inner = spec_fmt_children(ch, next_depth(depth), indent);
    let close = if inner.1 {
        lb + ")"@
    } else {
        ")"@
    };
    assert(spec_fmt(t, depth, indent).0 == lb + "("@ + inner.0 + close);
    assert((lb + "("@ + inner.0 + close)[0] == lb[0]);
}

/// The printed text of top-level trees, each apart from the one before,
/// lexes as their tokens.
proof fn lemma_lex_sequence(s: Seq<char>, i: int, ch: Seq<SpecTree>, indent: Seq<char>)
    requires
        plain_children(ch),
        all_space(indent),
        0 <= i,
        i + spec_fmt_sequence(ch, indent).len() <= s.len() <= usize::MAX,
        s.subrange(i, i + spec_fmt_sequence(ch, indent).len()) == spec_fmt_sequence(ch, indent),
        ch.len() > 0 && ch.last() is Atom ==> i + spec_fmt_sequence(ch, indent).len() == s.len()
            || is_delimiter(s[i + spec_fmt_sequence(ch, indent).len()]),
    ensures
        lexes_children_as(s, i, i + spec_fmt_sequence(ch, indent).len(), ch),
    decreases ch.len(),
{
    reveal_strlit(" ");
    let e = i + spec_fmt_sequence(ch, indent).len();
    if ch.len() == 0 {
        match spec_lex_from(s, i) {
            Ok(r) => {
                assert(r.skip(0) =~= r);
            },
            Err(q) => {},
        }
    } else if ch.len() == 1 {
        lemma_fmt_sequence_first(ch, indent);
        assert(ch.last() == ch[0]);
        lemma_lex_tree(s, i, ch[0], 0, indent);
        assert(spec_fmt_sequence(ch.drop_first(), indent) =~= Seq::<char>::empty());
        assert(s.subrange(e, e) =~= Seq::<char>::empty());
        lemma_lex_sequence(s, e, ch.drop_first(), indent);
        lemma_lex_compose(s, i, e, e, ch[0], ch.drop_first());
        assert(seq![ch[0]] + ch.drop_first() =~= ch);
    } else {
        lemma_fmt_sequence_first(ch, indent);
        let a = spec_fmt(ch[0], 0, indent).0;
        let sep = top_level_separator(ch[1]);
        let rest = ch.drop_first();
        let r = spec_fmt_sequence(rest, indent);
        let m = i + a.len();
        let n = m + sep.len();
        lemma_subrange_split(s, i, a + sep, r);
        lemma_subrange_split(s, i, a, sep);
        assert(rest[0] == ch[1]);
        if starts_new_line(ch[1]) {
            assert(sep =~= Seq::<char>::empty());
            lemma_list_starts_new_line(ch[1], 0, indent);
            lemma_fmt_sequence_first(rest, indent);
            assert(s.subrange(n, e)[0] == s[n]);
            assert(r[0] == spec_fmt(ch[1], 0, indent).0[0]);
            assert(s[m] == '\n');
        } else {
            assert(s.subrange(m, n)[0] == s[m]);
            assert(s[m] == ' ');
        }
        lemma_lex_tree(s, i, ch[0], 0, indent);
        assert(rest.last() == ch.last());
        lemma_lex_sequence(s, n, rest, indent);
        lemma_lex_skip_spaces(s, m, n);
        lemma_lex_compose(s, i, m, e, ch[0], rest);
        assert(seq![ch[0]] + rest =~= ch);
    }
}

/// Token kinds that printed Scheme text is made of.
pub open spec fn scheme_kind(k: TokenKind) -> bool {
    k == TokenKind::Open || k == TokenKind::Close || k == TokenKind::Word
}

/// Every token of `ts` is a parenthesis or a word.
pub open spec fn scheme_tokens(ts: Seq<Token>) -> bool {
    forall|j: int| 0 <= j < ts.len() ==> scheme_kind(#[trigger] ts[j].kind)
}

proof fn lemma_spells_kinds(x: Seq<Token>, s: Seq<char>, t: SpecTree)
    requires
        spells(x, s, t),
    ensures
        token_count(t) <= x.len(),
        forall|j: int| 0 <= j < token_count(t) ==> scheme_kind(#[trigger] x[j].kind),
    decreases t,
{
    match t {
        SpecTree::Atom(w) => {},
        SpecTree::List(ch) => {
            let cc = children_token_count(ch);
            lemma_spells_children_kinds(x.skip(1), s, ch);
            assert forall|j: int| 0 <= j < token_count(t) implies scheme_kind(#[trigger] x[j].kind) by {
                if 1 <= j < 1 + cc {
                    assert(x.skip(1)[j - 1] == x[j]);
                }
            }
        },
    }
}

proof fn lemma_spells_children_kinds(x: Seq<Token>, s: Seq<char>, ch: Seq<SpecTree>)
    requires
        spells_children(x, s, ch),
    ensures
        children_token_count(ch) <= x.len(),
        forall|j: int| 0 <= j < children_token_count(ch) ==> scheme_kind(#[trigger] x[j].kind),
    decreases ch,
{
    if ch.len() > 0 {
        let c0 = token_count(ch[0]);
        lemma_spells_kinds(x, s, ch[0]);
        lemma_spells_children_kinds(x.skip(c0 as int), s, ch.drop_first());
        assert forall|j: int| 0 <= j < children_token_count(ch) implies scheme_kind(
            #[trigger] x[j].kind,
        ) by {
            if j >= c0 {
                assert(x.skip(c0 as int)[j - c0] == x[j]);
            }
        }
    }
}

proof fn lemma_no_top_comma(ts: Seq<Token>, i: int, depth: nat)
    requires
        scheme_tokens(ts),
    ensures
        !spec_has_top_comma(ts, i, depth),
    decreases ts.len() - i,
{
    if 0 <= i < ts.len() {
        assert(scheme_kind(ts[i].kind));
        if ts[i].kind == TokenKind::Open {
            lemma_no_top_comma(ts, i + 1, depth + 1);
        } else if ts[i].kind == TokenKind::Close {
            if depth > 0 {
                lemma_no_top_comma(ts, i + 1, (depth - 1) as nat);
            }
        } else {
            lemma_no_top_comma(ts, i + 1, depth);
        }
    }
}

/// Nothing follows a printed tree at `i` that would extend it: no argument
/// list with a comma, no index.
proof fn lemma_plain_postfix(ts: Seq<Token>, s: Seq<char>, t: SpecTree, i: int)
    requires
        scheme_tokens(ts),
    ensures
        spec_postfix(ts, s, t, i) == Some((t, i)),
{
    lemma_no_top_comma(ts, i + 1, 0);
    if 0 <= i + 1 < ts.len() {
        assert(scheme_kind(ts[i + 1].kind));
    }
}


/// The tokens of printed children that begin with a definer word do not
/// read as a definition head: the children hold no definition syntax.
proof fn lemma_no_head(ts: Seq<Token>, s: Seq<char>, j: int, ch: Seq<SpecTree>)
    requires
        0 <= j <= ts.len(),
        ch.len() > 0,
        ch[0] is Atom,
        no_definition(ch),
        spells_children(ts.skip(j), s, ch),
        j + children_token_count(ch) < ts.len(),
        ts[j + children_token_count(ch)].kind == TokenKind::Close,
    ensures
        !define_value_head(ts, s, j),
        !let_head(ts, s, j),
{
    reveal_strlit("define");
    let x = ts.skip(j);
    let r1 = ch.drop_first();
    assert(spells(x, s, ch[0]));
    assert(x[0] == ts[j]);
    if define_value_head(ts, s, j) || let_head(ts, s, j) {
        assert(is_definer(ch[0]->Atom_0));
        assert(spells_children(x.skip(1), s, r1));
        assert(x.skip(1) =~= ts.skip(j + 1));
        if r1.len() == 0 {
            assert(children_token_count(r1) == 0);
            assert(children_token_count(ch) == 1);
            assert(false);
        } else {
            assert(r1[0] == ch[1]);
            assert(spells(ts.skip(j + 1), s, ch[1]));
            assert(ts.skip(j + 1)[0] == ts[j + 1]);
            if ch[1] is List {
                assert(false);
            }
            let r2 = r1.drop_first();
            assert(spells_children(ts.skip(j + 1).skip(1), s, r2));
            assert(ts.skip(j + 1).skip(1) =~= ts.skip(j + 2));
            if r2.len() == 0 {
                assert(children_token_count(r2) == 0);
                assert(r1[0] == ch[1]);
                assert(children_token_count(r1) == 1);
                assert(children_token_count(ch) == 2);
                assert(false);
            } else {
                assert(r2[0] == ch[2]);
                assert(spells(ts.skip(j + 2), s, ch[2]));
                assert(ts.skip(j + 2)[0] == ts[j + 2]);
                if ch[2] is List {
                    assert(false);
                }
                assert(ch[2] == SpecTree::Atom("="@));
                assert(definition_pattern(ch, 0));
                assert(false);
            }
        }
    }
}

/// A printed plain tree parses back as a term.
proof fn lemma_parse_term(ts: Seq<Token>, s: Seq<char>, j: int, t: SpecTree, in_scheme: bool)
    requires
        scheme_tokens(ts),
        plain_tree(t),
        0 <= j <= ts.len(),
        spells(ts.skip(j), s, t),
        t is Atom ==> (in_scheme || is_name(t->Atom_0)) && !define_value_head(ts, s, j)
            && !let_head(ts, s, j),
    ensures
        j + token_count(t) <= ts.len(),
        spec_term(ts, s, j, in_scheme) == Some((t, j + token_count(t))),
    decreases t,
{
    let x = ts.skip(j);
    assert(x[0] == ts[j]);
    lemma_spells_kinds(x, s, t);
    match t {
        SpecTree::Atom(w) => {
            if 0 <= j + 1 < ts.len() {
                assert(scheme_kind(ts[j + 1].kind));
            }
            assert(!cond_head(ts, s, j));
            match spec_params(ts, s, j + 3) {
                Some((_, k)) => {
                    if 0 <= k < ts.len() {
                        assert(scheme_kind(ts[k].kind));
                    }
                },
                None => {},
            }
            assert(!define_function_head(ts, s, j));
            lemma_plain_postfix(ts, s, t, j + 1);
        },
        SpecTree::List(ch) => {
            let cc = children_token_count(ch);
            assert(x.skip(1) =~= ts.skip(j + 1));
            assert(x[1 + cc as int] == ts[j + 1 + cc]);
            lemma_parse_scheme_items(ts, s, j + 1, ch);
            assert(spec_scheme_expression(ts, s, j) == Some((t, j + 2 + cc)));
            lemma_plain_postfix(ts, s, t, j + 2 + cc);
        },
    }
}

/// The printed children of a plain list parse back as its Scheme items.
proof fn lemma_parse_scheme_items(ts: Seq<Token>, s: Seq<char>, j: int, ch: Seq<SpecTree>)
    requires
        scheme_tokens(ts),
        plain_children(ch),
        no_definition(ch),
        0 <= j <= ts.len(),
        spells_children(ts.skip(j), s, ch),
        j + children_token_count(ch) < ts.len(),
        ts[j + children_token_count(ch)].kind == TokenKind::Close,
    ensures
        spec_scheme_items(ts, s, j) == (ch, j + children_token_count(ch)),
    decreases ch,
{
    if ch.len() == 0 {
        assert(ch =~= Seq::<SpecTree>::empty());
    } else {
        let x = ts.skip(j);
        let t = ch[0];
        let rest = ch.drop_first();
        let c0 = token_count(t);
        assert(spells(x, s, t));
        assert(x[0] == ts[j]);
        if t is Atom {
            lemma_no_head(ts, s, j, ch);
        }
        lemma_parse_term(ts, s, j, t, true);
        assert(!is_closer(ts[j].kind)) by {
            lemma_spells_kinds(x, s, t);
        }
        assert(x.skip(c0 as int) =~= ts.skip(j + c0));
        assert forall|k: int| !#[trigger] definition_pattern(rest, k) by {
            if definition_pattern(rest, k) {
                assert(rest[k] == ch[k + 1]);
                assert(rest[k + 1] == ch[k + 2]);
                assert(rest[k + 2] == ch[k + 3]);
                assert(definition_pattern(ch, k + 1));
            }
        }
        lemma_parse_scheme_items(ts, s, j + c0, rest);
        assert(seq![t] + rest =~= ch);
    }
}

/// The printed top-level trees parse back as the program's expressions.
proof fn lemma_parse_items(ts: Seq<Token>, s: Seq<char>, j: int, ch: Seq<SpecTree>)
    requires
        scheme_tokens(ts),
        top_level_items(ch),
        plain_children(ch),
        0 <= j <= ts.len(),
        spells_children(ts.skip(j), s, ch),
        j + children_token_count(ch) == ts.len(),
    ensures
        spec_items(ts, s, j) == (ch, ts.len() as int),
    decreases ch,
{
    reveal_strlit("define");
    if ch.len() == 0 {
        assert(ch =~= Seq::<SpecTree>::empty());
    } else {
        let x = ts.skip(j);
        let t = ch[0];
        let rest = ch.drop_first();
        let c0 = token_count(t);
        assert(top_level_item(t));
        assert(spells(x, s, t));
        assert(x[0] == ts[j]);
        assert(!let_head(ts, s, j));
        assert(!define_value_head(ts, s, j));
        lemma_parse_term(ts, s, j, t, false);
        assert(x.skip(c0 as int) =~= ts.skip(j + c0));
        assert(spells_children(ts.skip(j + c0), s, rest));
        if rest.len() > 0 {
            assert(rest[0] == ch[1]);
            assert(top_level_item(rest[0]));
            assert(spells(ts.skip(j + c0), s, rest[0]));
            assert(ts.skip(j + c0)[0] == ts[j + c0]);
            if rest[0] is Atom {
                assert(token_text(s, ts[j + c0]) == rest[0]->Atom_0);
                assert(operator_of(rest[0]->Atom_0) is None);
            }
        } else {
            assert(children_token_count(rest) == 0);
            assert(j + c0 == ts.len());
        }
        assert(operator_at(ts, s, j + c0) is None);
        assert(spec_chain(ts, s, j + c0) == Some(
            (Seq::<SpecTree>::empty(), Seq::<Operator>::empty(), j + c0),
        ));
        assert(seq![t] + Seq::<SpecTree>::empty() =~= seq![t]);
        assert(spec_expr(ts, s, j) == Some((t, j + c0)));
        assert(spec_item(ts, s, j) == Some((t, j + c0)));
        assert(!is_closer(ts[j].kind));
        assert forall|k: int| 0 <= k < rest.len() implies #[trigger] top_level_item(rest[k]) by {
            assert(rest[k] == ch[k + 1]);
        }
        lemma_parse_items(ts, s, j + c0, rest);
        assert(seq![t] + rest =~= ch);
    }
}

/// Scheme passes through unchanged: the Scheme text that the printer writes
/// for a program of plain lists and names parses back to that program,
/// whatever white space it indents with.
pub proof fn lemma_scheme_passthrough(t: SpecTree, indent: Seq<char>)
    requires
        t is List,
        top_level_items(t->List_0),
        plain_children(t->List_0),
        all_space(indent),
        spec_fmt_top_level(t, indent).len() <= usize::MAX,
    ensures
        spec_parse_input(spec_fmt_top_level(t, indent)) == Ok::<SpecTree, ParseError>(t),
{
    let ch = t->List_0;
    let s = spec_fmt_top_level(t, indent);
    assert(s.subrange(0, s.len() as int) =~= s);
    lemma_lex_sequence(s, 0, ch, indent);
    assert(spec_lex_from(s, s.len() as int) == Ok::<Seq<Token>, int>(Seq::empty()));
    let x = spec_lex_from(s, 0)->Ok_0;
    assert(x.skip(0) =~= x);
    lemma_spells_children_kinds(x, s, ch);
    lemma_parse_items(x, s, 0, ch);
}

} // verus!
