use vstd::prelude::*;

use super::syntax::spec_list;
use super::{tree_result, FupParser};
use crate::grammar::{lemma_list_model, models, GrammarTree, SpecTree};
use crate::lexer::TokenKind;

verus! {

impl<'i> FupParser<'i> {
    /// A list literal `[a, b, ...]` at `i`: `(list a b ...)`.
    pub fn parse_list(&self, i: usize) -> (r: Option<(GrammarTree<'i>, usize)>)
        requires
            i <= self.tokens().len(),
        ensures
            tree_result(r, spec_list(self.tokens(), self.source(), i as int)),
        decreases self.tokens().len() - i, 0nat,
    {
        if !self.kind_is(i, TokenKind::OpenBracket) {
            return None;
        }
        match self.parse_args(i + 1, TokenKind::CloseBracket) {
            Some((elements, j)) => {
                let mut v = vec![GrammarTree::Atom("list")];
                let ghost rest = models(elements@);
                let mut elements = elements;
                v.append(&mut elements);
                proof {
                    lemma_list_model(v);
                    assert(models(v@) =~= seq![SpecTree::Atom("list"@)] + rest);
                }
                Some((GrammarTree::List(v), j))
            },
            None => None,
        }
    }
}

} // verus!
