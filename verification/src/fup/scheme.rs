use vstd::prelude::*;

use super::syntax::{is_closer, spec_scheme_expression, spec_scheme_items};
use super::{tree_result, FupParser};
use crate::grammar::{lemma_list_model, models, GrammarTree, SpecTree};
use crate::lexer::TokenKind;

verus! {

impl<'i> FupParser<'i> {
    /// A Scheme expression `( items )` at `i`: the list of its items, where
    /// FUP terms may stand but infix operators are plain atoms.
    pub fn parse_scheme_expression(&self, i: usize) -> (r: Option<(GrammarTree<'i>, usize)>)
        requires
            i <= self.tokens().len(),
        ensures
            tree_result(r, spec_scheme_expression(self.tokens(), self.source(), i as int)),
        decreases self.tokens().len() - i, 0nat,
    {
        if !self.kind_is(i, TokenKind::Open) {
            return None;
        }
        let (items, j) = self.parse_scheme_items(i + 1);
        if self.kind_is(j, TokenKind::Close) {
            proof {
                lemma_list_model(items);
            }
            Some((GrammarTree::List(items), j + 1))
        } else {
            None
        }
    }

    /// The items of a Scheme expression from `i` on.
    pub fn parse_scheme_items(&self, i: usize) -> (r: (Vec<GrammarTree<'i>>, usize))
        requires
            i <= self.tokens().len(),
        ensures
            spec_scheme_items(self.tokens(), self.source(), i as int) == (models(r.0@), r.1 as int),
        decreases self.tokens().len() - i, 2nat,
    {
        let mut acc: Vec<GrammarTree<'i>> = Vec::new();
        let mut j = i;
        loop
            invariant
                i <= j <= self.tokens().len(),
                spec_scheme_items(self.tokens(), self.source(), i as int) == (
                    models(acc@) + spec_scheme_items(self.tokens(), self.source(), j as int).0,
                    spec_scheme_items(self.tokens(), self.source(), j as int).1,
                ),
            decreases self.tokens().len() - j,
        {
            if j >= self.len() || self.closer_at(j) {
                assert(models(acc@) + Seq::<SpecTree>::empty() =~= models(acc@));
                return (acc, j);
            }
            match self.parse_fup_term(j, true) {
                Some((t, k)) => {
                    if !(j < k && k <= self.len()) {
                        assert(models(acc@) + Seq::<SpecTree>::empty() =~= models(acc@));
                        return (acc, j);
                    }
                    proof {
                        let rest = spec_scheme_items(self.tokens(), self.source(), k as int);
                        assert(models(acc@.push(t)) =~= models(acc@) + seq![t@]);
                        assert(models(acc@) + (seq![t@] + rest.0) =~= (models(acc@) + seq![t@])
                            + rest.0);
                    }
                    acc.push(t);
                    j = k;
                },
                None => {
                    assert(models(acc@) + Seq::<SpecTree>::empty() =~= models(acc@));
                    return (acc, j);
                },
            }
        }
    }
}

} // verus!

verus! {

/// Infix operators work only outside Scheme expressions: inside one, an
/// operator word (one that is no name) is a plain atom, while as an operand
/// of a FUP expression it begins no term.
pub proof fn lemma_operator_word_in_scheme(ts: Seq<crate::lexer::Token>, s: Seq<char>, i: int)
    requires
        super::syntax::is_kind(ts, i, TokenKind::Word),
        super::syntax::operator_of(super::syntax::token_text(s, ts[i])) is Some,
        !super::syntax::is_name(super::syntax::token_text(s, ts[i])),
    ensures
        super::syntax::spec_term(ts, s, i, true) == Some((super::syntax::atom_at(ts, s, i), i + 1)),
        super::syntax::spec_term(ts, s, i, false) is None,
{
    let w = super::syntax::token_text(s, ts[i]);
    reveal_strlit("cond");
    reveal_strlit("define");
    reveal_strlit("let");
    reveal_strlit("let*");
    reveal_strlit("letrec");
    assert(!super::syntax::cond_head(ts, s, i)) by {
        if w == "cond"@ {
            assert(super::syntax::is_name(w));
        }
    }
    assert(!super::syntax::define_function_head(ts, s, i) && !super::syntax::define_value_head(ts, s, i)) by {
        if w == "define"@ {
            assert(super::syntax::is_name(w));
        }
    }
    assert(!super::syntax::let_head(ts, s, i)) by {
        if w == "let"@ || w == "letrec"@ {
            assert(super::syntax::is_name(w));
        }
        if w == "let*"@ {
            reveal_strlit("++");
            reveal_strlit(":");
            reveal_strlit("||");
            reveal_strlit("&&");
            reveal_strlit("<=");
            reveal_strlit(">=");
            reveal_strlit("<");
            reveal_strlit(">");
            reveal_strlit("+");
            reveal_strlit("-");
            reveal_strlit("*");
            reveal_strlit("/");
            reveal_strlit("%");
            reveal_strlit("is");
            reveal_strlit("eqv");
            reveal_strlit("==");
            reveal_strlit("=");
            assert(super::syntax::operator_of(w) is None);
        }
    }
}

} // verus!
