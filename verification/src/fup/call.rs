use vstd::prelude::*;

use super::syntax::spec_call;
use super::{tree_result, FupParser};
use crate::grammar::{lemma_list_model, models, GrammarTree};
use crate::lexer::TokenKind;

verus! {

impl<'i> FupParser<'i> {
    /// A call of `callee` with the argument list that opens at `i`:
    /// `callee(a, b)` is `(callee a b)`, `callee(a,)` is `(callee a)` and
    /// `callee(,)` is `(callee)`.
    pub fn parse_call(&self, callee: GrammarTree<'i>, i: usize) -> (r: Option<(GrammarTree<'i>, usize)>)
        requires
            i <= self.tokens().len(),
        ensures
            tree_result(r, spec_call(self.tokens(), self.source(), callee@, i as int)),
        decreases self.tokens().len() - i, 0nat,
    {
        if !self.kind_is(i, TokenKind::Open) {
            return None;
        }
        match self.parse_args(i + 1, TokenKind::Close) {
            Some((args, j)) => {
                let ghost c = callee@;
                let mut v = vec![callee];
                let ghost rest = models(args@);
                let mut args = args;
                v.append(&mut args);
                proof {
                    lemma_list_model(v);
                    assert(models(v@) =~= seq![c] + rest);
                }
                Some((GrammarTree::List(v), j))
            },
            None => None,
        }
    }
}

} // verus!
