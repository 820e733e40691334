use vstd::prelude::*;

use super::syntax::{cond_head, prepend_trees, spec_cond, spec_cond_arms};
use super::{tree_result, trees_result, FupParser};
use crate::grammar::{lemma_list_model, models, GrammarTree, SpecTree};
use crate::lexer::TokenKind;

verus! {

impl<'i> FupParser<'i> {
    /// Whether `cond {` begins a cond form at `i`.
    pub fn cond_head(&self, i: usize) -> (b: bool)
        ensures
            b == cond_head(self.tokens(), self.source(), i as int),
            self.tokens().len() <= usize::MAX,
    {
        self.word_is(i, "cond") && i < self.len() && self.kind_is(i + 1, TokenKind::OpenBrace)
    }

    /// `cond { a => b, ... }` at `i`: `(cond (a b) ...)`.
    pub fn parse_cond(&self, i: usize) -> (r: Option<(GrammarTree<'i>, usize)>)
        requires
            i <= self.tokens().len(),
        ensures
            tree_result(r, spec_cond(self.tokens(), self.source(), i as int)),
        decreases self.tokens().len() - i, 0nat,
    {
        if !self.cond_head(i) {
            return None;
        }
        match self.parse_cond_arms(i + 2) {
            Some((arms, j)) => {
                let mut v = vec![GrammarTree::Atom("cond")];
                let ghost rest = models(arms@);
                let mut arms = arms;
                v.append(&mut arms);
                proof {
                    lemma_list_model(v);
                    assert(models(v@) =~= seq![SpecTree::Atom("cond"@)] + rest);
                }
                Some((GrammarTree::List(v), j))
            },
            None => None,
        }
    }

    /// The arms `a => b` of a cond from `i` to the closing brace.
    pub fn parse_cond_arms(&self, i: usize) -> (r: Option<(Vec<GrammarTree<'i>>, usize)>)
        requires
            i <= self.tokens().len(),
        ensures
            trees_result(r, spec_cond_arms(self.tokens(), self.source(), i as int)),
        decreases self.tokens().len() - i, 4nat,
    {
        let mut acc: Vec<GrammarTree<'i>> = Vec::new();
        let mut j = i;
        loop
            invariant
                i <= j <= self.tokens().len(),
                spec_cond_arms(self.tokens(), self.source(), i as int) == prepend_trees(
                    models(acc@),
                    spec_cond_arms(self.tokens(), self.source(), j as int),
                ),
            decreases self.tokens().len() - j,
        {
            if self.kind_is(j, TokenKind::CloseBrace) {
                assert(models(acc@) + Seq::<SpecTree>::empty() =~= models(acc@));
                return Some((acc, j + 1));
            }
            let (a, k) = match self.parse_operator_expression(j) {
                Some(x) => x,
                None => {
                    return None;
                },
            };
            if !(j < k && k < self.len() && self.word_is(k, "=>")) {
                return None;
            }
            let (b, m) = match self.parse_operator_expression(k + 1) {
                Some(x) => x,
                None => {
                    return None;
                },
            };
            if !(k + 1 < m && m <= self.len()) {
                return None;
            }
            let v = vec![a, b];
            let ghost arm = SpecTree::List(seq![a@, b@]);
            proof {
                lemma_list_model(v);
                assert(models(v@) =~= seq![a@, b@]);
            }
            let arm_tree = GrammarTree::List(v);
            assert(models(acc@.push(arm_tree)) =~= models(acc@) + seq![arm]);
            if self.kind_is(m, TokenKind::Comma) {
                proof {
                    let rest = spec_cond_arms(self.tokens(), self.source(), m + 1);
                    if let Some((x, n)) = rest {
                        assert(models(acc@) + (seq![arm] + x) =~= (models(acc@) + seq![arm]) + x);
                    }
                }
                acc.push(arm_tree);
                j = m + 1;
            } else if self.kind_is(m, TokenKind::CloseBrace) {
                acc.push(arm_tree);
                return Some((acc, m + 1));
            } else {
                return None;
            }
        }
    }
}

} // verus!
