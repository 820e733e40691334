use vstd::prelude::*;

use super::syntax::{
    define_function_head, define_value_head, prepend_trees, spec_define, spec_params,
};
use super::{tree_result, trees_result, FupParser};
use crate::grammar::{lemma_list_model, models, GrammarTree, SpecTree};
use crate::lexer::TokenKind;

verus! {

impl<'i> FupParser<'i> {
    /// The parameter names `p, q, ...)` from `i` to the closing parenthesis.
    pub fn parse_params(&self, i: usize) -> (r: Option<(Vec<GrammarTree<'i>>, usize)>)
        requires
            i <= self.tokens().len(),
        ensures
            trees_result(r, spec_params(self.tokens(), self.source(), i as int)),
    {
        let mut acc: Vec<GrammarTree<'i>> = Vec::new();
        let mut j = i;
        loop
            invariant
                i <= j <= self.tokens().len(),
                spec_params(self.tokens(), self.source(), i as int) == prepend_trees(
                    models(acc@),
                    spec_params(self.tokens(), self.source(), j as int),
                ),
            decreases self.tokens().len() - j,
        {
            if self.kind_is(j, TokenKind::Close) {
                assert(models(acc@) + Seq::<SpecTree>::empty() =~= models(acc@));
                return Some((acc, j + 1));
            }
            if !self.name_at(j) {
                return None;
            }
            let name = self.atom(j);
            assert(models(acc@.push(name)) =~= models(acc@) + seq![name@]);
            if self.kind_is(j + 1, TokenKind::Comma) {
                proof {
                    let rest = spec_params(self.tokens(), self.source(), j + 2);
                    if let Some((x, n)) = rest {
                        assert(models(acc@) + (seq![name@] + x) =~= (models(acc@) + seq![name@]) + x);
                    }
                }
                acc.push(name);
                j = j + 2;
            } else if self.kind_is(j + 1, TokenKind::Close) {
                acc.push(name);
                return Some((acc, j + 2));
            } else {
                return None;
            }
        }
    }

    /// Whether a definition `define NAME(params) {` or `define NAME =`
    /// begins at `i`.
    pub fn define_head(&self, i: usize) -> (b: bool)
        requires
            i <= self.tokens().len(),
        ensures
            b == (define_function_head(self.tokens(), self.source(), i as int)
                || define_value_head(self.tokens(), self.source(), i as int)),
    {
        if !(self.word_is(i, "define") && self.name_at(i + 1)) {
            return false;
        }
        if self.word_is(i + 2, "=") {
            return true;
        }
        if !self.kind_is(i + 2, TokenKind::Open) {
            return false;
        }
        match self.parse_params(i + 3) {
            Some((_, j)) => self.kind_is(j, TokenKind::OpenBrace),
            None => false,
        }
    }

    /// `define NAME(params) { body }` at `i`: `(define (NAME params...)
    /// body...)`; `define NAME = value` at `i`: `(define NAME value)`.
    pub fn parse_define(&self, i: usize) -> (r: Option<(GrammarTree<'i>, usize)>)
        requires
            i <= self.tokens().len(),
        ensures
            tree_result(r, spec_define(self.tokens(), self.source(), i as int)),
        decreases self.tokens().len() - i, 0nat,
    {
        if !(self.word_is(i, "define") && self.name_at(i + 1)) {
            return None;
        }
        if self.kind_is(i + 2, TokenKind::Open) {
            if let Some((params, j)) = self.parse_params(i + 3) {
                if self.kind_is(j, TokenKind::OpenBrace) {
                    if !(i + 3 < j && j < self.len()) {
                        return None;
                    }
                    let (body, k) = self.parse_items(j + 1);
                    if !self.kind_is(k, TokenKind::CloseBrace) {
                        return None;
                    }
                    let mut signature_items = vec![self.atom(i + 1)];
                    let ghost name = models(signature_items@);
                    let ghost ps = models(params@);
                    let mut params = params;
                    signature_items.append(&mut params);
                    proof {
                        lemma_list_model(signature_items);
                        assert(models(signature_items@) =~= name + ps);
                        assert(name =~= seq![super::syntax::atom_at(self.tokens(), self.source(), i + 1)]);
                    }
                    let signature = GrammarTree::List(signature_items);
                    let mut v = vec![GrammarTree::Atom("define"), signature];
                    let ghost head = models(v@);
                    let ghost b = models(body@);
                    let mut body = body;
                    v.append(&mut body);
                    proof {
                        lemma_list_model(v);
                        assert(models(v@) =~= head + b);
                        assert(head =~= seq![SpecTree::Atom("define"@), signature@]);
                    }
                    return Some((GrammarTree::List(v), k + 1));
                }
            }
        }
        if !self.word_is(i + 2, "=") {
            return None;
        }
        match self.parse_operator_expression(i + 3) {
            Some((value, j)) => {
                let v = vec![GrammarTree::Atom("define"), self.atom(i + 1), value];
                proof {
                    lemma_list_model(v);
                    assert(models(v@) =~= seq![
                        SpecTree::Atom("define"@),
                        super::syntax::atom_at(self.tokens(), self.source(), i + 1),
                        value@,
                    ]);
                }
                Some((GrammarTree::List(v), j))
            },
            None => None,
        }
    }
}

} // verus!
