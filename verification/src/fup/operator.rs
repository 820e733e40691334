use vstd::prelude::*;

use super::syntax::{
    first_with_precedence, last_with_precedence, min_precedence, operator_of, precedence,
    prepend_chain, right_assoc_level, scheme_name, spec_chain, spec_climb, spec_expr,
    split_point, Operator,
};
use super::{tree_result, FupParser};
use crate::grammar::{lemma_list_model, models, GrammarTree, SpecTree};
use crate::lexer::TokenKind;

verus! {

impl Operator {
    /// The Scheme procedure the operator stands for.
    pub fn scheme_name(&self) -> (r: &'static str)
        ensures
            r@ == scheme_name(*self),
    {
        match self {
            Operator::Append => "append",
            Operator::Cons => "cons",
            Operator::Or => "or",
            Operator::And => "and",
            Operator::LowerThanOrEqual => "<=",
            Operator::GreaterThanOrEqual => ">=",
            Operator::LowerThan => "<",
            Operator::GreaterThan => ">",
            Operator::Add => "+",
            Operator::Subtract => "-",
            Operator::Multiply => "*",
            Operator::Divide => "/",
            Operator::Modulo => "%",
            Operator::Eq => "eq?",
            Operator::Eqv => "eqv?",
            Operator::Equal => "equal?",
            Operator::MathEqual => "=",
        }
    }

    /// How tightly the operator binds.
    pub fn precedence(&self) -> (p: u8)
        ensures
            p == precedence(*self),
    {
        match self {
            Operator::Append => 1,
            Operator::Cons => 2,
            Operator::Or => 3,
            Operator::And => 4,
            Operator::Eq | Operator::Eqv | Operator::Equal | Operator::MathEqual => 5,
            Operator::LowerThanOrEqual | Operator::GreaterThanOrEqual => 6,
            Operator::LowerThan | Operator::GreaterThan => 7,
            Operator::Add | Operator::Subtract => 8,
            Operator::Multiply | Operator::Divide | Operator::Modulo => 9,
        }
    }
}

/// The loosest precedence of a nonempty operator sequence is that of one of
/// its operators, and no operator is looser.
proof fn lemma_min_precedence(ops: Seq<Operator>)
    ensures
        ops.len() > 0 ==> exists|m: int| 0 <= m < ops.len() && #[trigger] precedence(ops[m]) == min_precedence(ops),
        forall|m: int| 0 <= m < ops.len() ==> min_precedence(ops) <= #[trigger] precedence(ops[m]),
        min_precedence(ops) <= 10,
    decreases ops.len(),
{
    if ops.len() > 0 {
        lemma_min_precedence(ops.drop_last());
        let init = ops.drop_last();
        assert forall|m: int| 0 <= m < ops.len() implies min_precedence(ops) <= #[trigger] precedence(ops[m]) by {
            if m < ops.len() - 1 {
                assert(ops[m] == init[m]);
            }
        }
        if precedence(ops.last()) < min_precedence(init) {
            assert(precedence(ops[ops.len() - 1]) == min_precedence(ops));
        } else {
            let m = choose|m: int| 0 <= m < init.len() && #[trigger] precedence(init[m]) == min_precedence(init);
            assert(precedence(ops[m]) == min_precedence(ops));
        }
    }
}

proof fn lemma_first_found(ops: Seq<Operator>, p: nat, j: int, m: int)
    requires
        0 <= j <= m < ops.len(),
        precedence(ops[m]) == p,
    ensures
        j <= first_with_precedence(ops, p, j) <= m,
        precedence(ops[first_with_precedence(ops, p, j)]) == p,
    decreases m - j,
{
    if precedence(ops[j]) != p {
        lemma_first_found(ops, p, j + 1, m);
    }
}

proof fn lemma_last_found(ops: Seq<Operator>, p: nat, k: int, m: int)
    requires
        0 <= m < k <= ops.len(),
        precedence(ops[m]) == p,
    ensures
        m <= last_with_precedence(ops, p, k) < k,
        precedence(ops[last_with_precedence(ops, p, k)]) == p,
    decreases k - m,
{
    if precedence(ops[k - 1]) != p {
        lemma_last_found(ops, p, k - 1, m);
    }
}

/// The position of the operator that applies last.
fn find_split_point(ops: &Vec<Operator>) -> (k: usize)
    requires
        ops.len() > 0,
    ensures
        k == split_point(ops@),
        k < ops.len(),
{
    let mut p: u8 = 10;
    let mut j: usize = 0;
    while j < ops.len()
        invariant
            j <= ops.len(),
            p == min_precedence(ops@.take(j as int)),
        decreases ops.len() - j,
    {
        let q = ops[j].precedence();
        assert(ops@.take(j + 1).drop_last() =~= ops@.take(j as int));
        if q < p {
            p = q;
        }
        j = j + 1;
    }
    assert(ops@.take(ops.len() as int) =~= ops@);
    proof {
        lemma_min_precedence(ops@);
    }
    let ghost m = choose|m: int| 0 <= m < ops@.len() && #[trigger] precedence(ops@[m]) == min_precedence(ops@);
    if p == 2 {
        let mut k: usize = 0;
        proof {
            lemma_first_found(ops@, p as nat, 0, m);
        }
        while ops[k].precedence() != p
            invariant
                0 <= k <= m < ops.len(),
                precedence(ops@[m]) == p,
                first_with_precedence(ops@, p as nat, 0) == first_with_precedence(ops@, p as nat, k as int),
            decreases m - k,
        {
            k = k + 1;
            proof {
                lemma_first_found(ops@, p as nat, k as int, m);
            }
        }
        k
    } else {
        let mut k: usize = ops.len();
        proof {
            lemma_last_found(ops@, p as nat, k as int, m);
        }
        while ops[k - 1].precedence() != p
            invariant
                0 <= m < k <= ops.len(),
                precedence(ops@[m]) == p,
                last_with_precedence(ops@, p as nat, ops.len() as int) == last_with_precedence(
                    ops@,
                    p as nat,
                    k as int,
                ),
            decreases k - m,
        {
            k = k - 1;
            proof {
                lemma_last_found(ops@, p as nat, k as int, m);
            }
        }
        k - 1
    }
}

/// Groups the infix expression `operands[0] ops[0] operands[1] ...` by
/// precedence and associativity.
pub fn climb<'i>(operands: Vec<GrammarTree<'i>>, ops: Vec<Operator>) -> (t: GrammarTree<'i>)
    requires
        operands.len() == ops.len() + 1,
    ensures
        t@ == spec_climb(models(operands@), ops@),
    decreases ops.len(),
{
    let mut operands = operands;
    let mut ops = ops;
    let ghost xs = models(operands@);
    let ghost os = ops@;
    if ops.len() == 0 {
        return operands.remove(0);
    }
    let k = find_split_point(&ops);
    let right_operands = operands.split_off(k + 1);
    let right_ops = ops.split_off(k + 1);
    let op = ops.pop().unwrap();
    assert(models(operands@) =~= xs.take(k + 1));
    assert(ops@ =~= os.take(k as int));
    assert(models(right_operands@) =~= xs.skip(k + 1));
    assert(right_ops@ =~= os.skip(k + 1));
    let left = climb(operands, ops);
    let right = climb(right_operands, right_ops);
    let v = vec![GrammarTree::Atom(op.scheme_name()), left, right];
    proof {
        lemma_list_model(v);
        assert(models(v@) =~= seq![SpecTree::Atom(scheme_name(op)), left@, right@]);
    }
    GrammarTree::List(v)
}

impl<'i> FupParser<'i> {
    /// The operator at `i`, if the token there is one.
    pub fn operator_at(&self, i: usize) -> (r: Option<Operator>)
        ensures
            r == super::syntax::operator_at(self.tokens(), self.source(), i as int),
            self.tokens().len() <= usize::MAX,
    {
        if !self.kind_is(i, TokenKind::Word) {
            None
        } else if self.word_is(i, "++") {
            Some(Operator::Append)
        } else if self.word_is(i, ":") {
            Some(Operator::Cons)
        } else if self.word_is(i, "||") {
            Some(Operator::Or)
        } else if self.word_is(i, "&&") {
            Some(Operator::And)
        } else if self.word_is(i, "<=") {
            Some(Operator::LowerThanOrEqual)
        } else if self.word_is(i, ">=") {
            Some(Operator::GreaterThanOrEqual)
        } else if self.word_is(i, "<") {
            Some(Operator::LowerThan)
        } else if self.word_is(i, ">") {
            Some(Operator::GreaterThan)
        } else if self.word_is(i, "+") {
            Some(Operator::Add)
        } else if self.word_is(i, "-") {
            Some(Operator::Subtract)
        } else if self.word_is(i, "*") {
            Some(Operator::Multiply)
        } else if self.word_is(i, "/") {
            Some(Operator::Divide)
        } else if self.word_is(i, "%") {
            Some(Operator::Modulo)
        } else if self.word_is(i, "is") {
            Some(Operator::Eq)
        } else if self.word_is(i, "eqv") {
            Some(Operator::Eqv)
        } else if self.word_is(i, "==") {
            Some(Operator::Equal)
        } else if self.word_is(i, "=") {
            Some(Operator::MathEqual)
        } else {
            None
        }
    }

    /// The operators and operands that follow the first operand of an infix
    /// expression, from `i` on.
    pub fn parse_chain(&self, i: usize) -> (r: Option<(Vec<GrammarTree<'i>>, Vec<Operator>, usize)>)
        requires
            i <= self.tokens().len(),
        ensures
            match r {
                Some((xs, os, k)) => spec_chain(self.tokens(), self.source(), i as int) == Some(
                    (models(xs@), os@, k as int),
                ) && xs.len() == os.len(),
                None => spec_chain(self.tokens(), self.source(), i as int) is None,
            },
        decreases self.tokens().len() - i, 0nat,
    {
        let mut xs: Vec<GrammarTree<'i>> = Vec::new();
        let mut os: Vec<Operator> = Vec::new();
        let mut j = i;
        loop
            invariant
                i <= j <= self.tokens().len(),
                xs.len() == os.len(),
                spec_chain(self.tokens(), self.source(), i as int) == prepend_chain(
                    models(xs@),
                    os@,
                    spec_chain(self.tokens(), self.source(), j as int),
                ),
            decreases self.tokens().len() - j,
        {
            match self.operator_at(j) {
                Some(op) => {
                    match self.parse_fup_term(j + 1, false) {
                        Some((t, k)) => {
                            if !(j + 1 < k && k <= self.len()) {
                                return None;
                            }
                            assert(models(xs@.push(t)) =~= models(xs@) + seq![t@]);
                            assert(os@.push(op) =~= os@ + seq![op]);
                            proof {
                                let rest = spec_chain(self.tokens(), self.source(), k as int);
                                if let Some((a, b, c)) = rest {
                                    assert(models(xs@) + (seq![t@] + a) =~= (models(xs@) + seq![t@]) + a);
                                    assert(os@ + (seq![op] + b) =~= (os@ + seq![op]) + b);
                                }
                            }
                            xs.push(t);
                            os.push(op);
                            j = k;
                        },
                        None => {
                            return None;
                        },
                    }
                },
                None => {
                    assert(models(xs@) + Seq::<SpecTree>::empty() =~= models(xs@));
                    assert(os@ + Seq::<Operator>::empty() =~= os@);
                    return Some((xs, os, j));
                },
            }
        }
    }

    /// An infix expression at `i`: operands joined by operators, grouped by
    /// precedence.
    pub fn parse_operator_expression(&self, i: usize) -> (r: Option<(GrammarTree<'i>, usize)>)
        requires
            i <= self.tokens().len(),
        ensures
            tree_result(r, spec_expr(self.tokens(), self.source(), i as int)),
        decreases self.tokens().len() - i, 3nat,
    {
        match self.parse_fup_term(i, false) {
            Some((t, j)) => {
                if !(i < j && j <= self.len()) {
                    return None;
                }
                match self.parse_chain(j) {
                    Some((xs, ops, k)) => {
                        let mut operands = vec![t];
                        let mut xs = xs;
                        let ghost first = models(operands@);
                        let ghost rest = models(xs@);
                        operands.append(&mut xs);
                        assert(models(operands@) =~= seq![t@] + rest);
                        Some((climb(operands, ops), k))
                    },
                    None => None,
                }
            },
            None => None,
        }
    }
}

} // verus!

verus! {

/// Of two infix operators, the one of tighter precedence groups first; at
/// equal precedence the expression groups to the left, except for `:`
/// (cons), which groups to the right.
pub proof fn lemma_operator_grouping(x: SpecTree, y: SpecTree, z: SpecTree, o1: Operator, o2: Operator)
    ensures
        ({
            let t = spec_climb(seq![x, y, z], seq![o1, o2]);
            let left = SpecTree::List(
                seq![
                    SpecTree::Atom(scheme_name(o2)),
                    SpecTree::List(seq![SpecTree::Atom(scheme_name(o1)), x, y]),
                    z,
                ],
            );
            let right = SpecTree::List(
                seq![
                    SpecTree::Atom(scheme_name(o1)),
                    x,
                    SpecTree::List(seq![SpecTree::Atom(scheme_name(o2)), y, z]),
                ],
            );
            &&& precedence(o1) < precedence(o2) ==> t == right
            &&& precedence(o1) > precedence(o2) ==> t == left
            &&& precedence(o1) == precedence(o2) && !right_assoc_level(precedence(o1)) ==> t == left
            &&& precedence(o1) == precedence(o2) && right_assoc_level(precedence(o1)) ==> t == right
        }),
{
    let xs = seq![x, y, z];
    let ops = seq![o1, o2];
    reveal_with_fuel(min_precedence, 3);
    reveal_with_fuel(first_with_precedence, 3);
    reveal_with_fuel(last_with_precedence, 3);
    reveal_with_fuel(spec_climb, 3);
    assert(ops.drop_last() =~= seq![o1]);
    assert(seq![o1].drop_last() =~= Seq::<Operator>::empty());
    let k = split_point(ops);
    lemma_min_precedence(ops);
    if k == 0 {
        assert(xs.take(1) =~= seq![x]);
        assert(ops.take(0) =~= Seq::<Operator>::empty());
        assert(xs.skip(1) =~= seq![y, z]);
        assert(ops.skip(1) =~= seq![o2]);
        assert(seq![y, z].take(1) =~= seq![y]);
        assert(seq![y, z].skip(1) =~= seq![z]);
        assert(seq![o2].take(0) =~= Seq::<Operator>::empty());
        assert(seq![o2].skip(1) =~= Seq::<Operator>::empty());
        assert(split_point(seq![o2]) == 0);
        assert(spec_climb(seq![y, z], seq![o2]) == SpecTree::List(
            seq![SpecTree::Atom(scheme_name(o2)), y, z],
        ));
    } else {
        assert(k == 1);
        assert(xs.take(2) =~= seq![x, y]);
        assert(ops.take(1) =~= seq![o1]);
        assert(xs.skip(2) =~= seq![z]);
        assert(ops.skip(2) =~= Seq::<Operator>::empty());
        assert(seq![x, y].take(1) =~= seq![x]);
        assert(seq![x, y].skip(1) =~= seq![y]);
        assert(seq![o1].take(0) =~= Seq::<Operator>::empty());
        assert(seq![o1].skip(1) =~= Seq::<Operator>::empty());
        assert(split_point(seq![o1]) == 0);
        assert(spec_climb(seq![x, y], seq![o1]) == SpecTree::List(
            seq![SpecTree::Atom(scheme_name(o1)), x, y],
        ));
    }
}

} // verus!
