use vstd::prelude::*;

use super::syntax::{let_head, prepend_trees, spec_assignments, spec_let, spec_let_bindings};
use super::{tree_result, trees_result, FupParser};
use crate::grammar::{lemma_list_model, models, GrammarTree, SpecTree};
use crate::lexer::TokenKind;

verus! {

impl<'i> FupParser<'i> {
    /// Whether `let NAME =` or `let {` (or `let*`, `letrec`) begins a let
    /// form at `i`.
    pub fn let_head(&self, i: usize) -> (b: bool)
        requires
            i <= self.tokens().len(),
        ensures
            b == let_head(self.tokens(), self.source(), i as int),
            self.tokens().len() <= usize::MAX,
    {
        (self.word_is(i, "let") || self.word_is(i, "let*") || self.word_is(i, "letrec")) && ((
        self.name_at(i + 1) && self.word_is(i + 2, "=")) || self.kind_is(i + 1, TokenKind::OpenBrace))
    }

    /// `let NAME = value, ... { body }` at `i`: `(let ((NAME value) ...)
    /// body...)`, likewise for `let*` and `letrec`; `let { body }` has no
    /// bindings. Without braces, where
    /// `unscoped` allows it, the rest of the enclosing sequence is the body.
    pub fn parse_let_any(&self, i: usize, unscoped: bool) -> (r: Option<(GrammarTree<'i>, usize)>)
        requires
            i <= self.tokens().len(),
        ensures
            tree_result(r, spec_let(self.tokens(), self.source(), i as int, unscoped)),
        decreases self.tokens().len() - i, 0nat,
    {
        if !self.let_head(i) {
            return None;
        }
        let ghost binds = spec_let_bindings(self.tokens(), self.source(), i as int);
        let (assignments, j) = if self.kind_is(i + 1, TokenKind::OpenBrace) {
            let empty: Vec<GrammarTree<'i>> = Vec::new();
            assert(models(empty@) =~= Seq::<SpecTree>::empty());
            (empty, i + 1)
        } else {
            match self.parse_assignments(i + 1) {
                Some(x) => x,
                None => {
                    return None;
                },
            }
        };
        assert(binds == Some((models(assignments@), j as int)));
        if !(i + 1 <= j && j <= self.len()) {
            return None;
        }
        let (body, k) = if self.kind_is(j, TokenKind::OpenBrace) {
            let (body, k) = self.parse_items(j + 1);
            if !self.kind_is(k, TokenKind::CloseBrace) {
                return None;
            }
            (body, k + 1)
        } else if unscoped {
            let (body, k) = self.parse_items(j);
            (body, k)
        } else {
            return None;
        };
        proof {
            lemma_list_model(assignments);
        }
        let assignment_list = GrammarTree::List(assignments);
        let keyword = self.atom(i);
        let ghost head = seq![keyword@, assignment_list@];
        let mut v = vec![keyword, assignment_list];
        let ghost b = models(body@);
        let mut body = body;
        v.append(&mut body);
        proof {
            lemma_list_model(v);
            assert(models(v@) =~= head + b);
        }
        Some((GrammarTree::List(v), k))
    }

    /// The assignments `NAME = value, ...` from `i` on: the list of
    /// `(NAME value)` pairs.
    pub fn parse_assignments(&self, i: usize) -> (r: Option<(Vec<GrammarTree<'i>>, usize)>)
        requires
            i <= self.tokens().len(),
        ensures
            trees_result(r, spec_assignments(self.tokens(), self.source(), i as int)),
        decreases self.tokens().len() - i, 0nat,
    {
        let mut acc: Vec<GrammarTree<'i>> = Vec::new();
        let mut j = i;
        loop
            invariant
                i <= j <= self.tokens().len(),
                spec_assignments(self.tokens(), self.source(), i as int) == prepend_trees(
                    models(acc@),
                    spec_assignments(self.tokens(), self.source(), j as int),
                ),
            decreases self.tokens().len() - j,
        {
            if !(self.name_at(j) && self.word_is(j + 1, "=")) {
                return None;
            }
            let (value, k) = match self.parse_operator_expression(j + 2) {
                Some(x) => x,
                None => {
                    return None;
                },
            };
            if !(j + 2 < k && k <= self.len()) {
                return None;
            }
            let v = vec![self.atom(j), value];
            let ghost a = SpecTree::List(seq![super::syntax::atom_at(self.tokens(), self.source(), j as int), value@]);
            proof {
                lemma_list_model(v);
                assert(models(v@) =~= seq![super::syntax::atom_at(self.tokens(), self.source(), j as int), value@]);
            }
            let assignment = GrammarTree::List(v);
            assert(models(acc@.push(assignment)) =~= models(acc@) + seq![a]);
            if self.kind_is(k, TokenKind::Comma) && self.kind_is(k + 1, TokenKind::OpenBrace) {
                acc.push(assignment);
                return Some((acc, k + 1));
            } else if self.kind_is(k, TokenKind::Comma) {
                proof {
                    let rest = spec_assignments(self.tokens(), self.source(), k + 1);
                    if let Some((x, n)) = rest {
                        assert(models(acc@) + (seq![a] + x) =~= (models(acc@) + seq![a]) + x);
                    }
                }
                acc.push(assignment);
                j = k + 1;
            } else {
                acc.push(assignment);
                return Some((acc, k));
            }
        }
    }
}

} // verus!
