//! The FUP parser: from source text to the grammar tree of the Scheme code
//! it stands for.
pub mod call;
pub mod cond;
pub mod define;
pub mod index;
pub mod let_any;
pub mod list;
pub mod location;
pub mod laws;
pub mod operator;
pub mod scheme;
pub mod syntax;

use vstd::prelude::*;

use crate::grammar::{lemma_list_model, models, GrammarTree, SpecTree};
use index::index_tree;
use crate::lexer::{chars_of, lemma_lex_tokens_within, lex, spec_lex, tokens_within, Token, TokenKind};
use syntax::{atom_at, is_closer, is_kind, is_name, is_name_word, is_word, spec_items, spec_term, spec_has_top_comma, spec_postfix, spec_args, spec_args_rest, spec_item, spec_parse_tokens, token_text, prepend_trees};

verus! {

/// Why a text is no FUP program.
#[derive(Clone, Copy, Debug, PartialEq, Eq, Structural)]
pub enum ParseErrorKind {
    /// A character begins no token: an unterminated string or a quote mark
    /// with no datum after it.
    Lexical,
    /// A token begins no expression where one is expected.
    Syntax,
}

/// A parse error, at the position (in characters) where parsing stopped.
#[derive(Clone, Copy, Debug, PartialEq, Eq, Structural)]
pub struct ParseError {
    pub kind: ParseErrorKind,
    pub position: usize,
}

/// The outcome of parsing the text `s`: the tree of the whole program, or
/// the error and its position.
pub open spec fn spec_parse_input(s: Seq<char>) -> Result<SpecTree, ParseError> {
    match spec_lex(s) {
        Err(p) => Err(ParseError { kind: ParseErrorKind::Lexical, position: p as usize }),
        Ok(ts) => match spec_parse_tokens(ts, s) {
            Ok(t) => Ok(t),
            Err(j) => Err(ParseError { kind: ParseErrorKind::Syntax, position: ts[j].start }),
        },
    }
}

/// A parse result agrees with its specification.
pub open spec fn tree_result<'i>(r: Option<(GrammarTree<'i>, usize)>, spec: Option<(SpecTree, int)>) -> bool {
    match r {
        Some((t, j)) => spec == Some((t@, j as int)),
        None => spec is None,
    }
}

/// A parse result of a sequence agrees with its specification.
pub open spec fn trees_result<'i>(
    r: Option<(Vec<GrammarTree<'i>>, usize)>,
    spec: Option<(Seq<SpecTree>, int)>,
) -> bool {
    match r {
        Some((v, j)) => spec == Some((models(v@), j as int)),
        None => spec is None,
    }
}

/// The parser of one FUP source text: the text, its characters and its
/// tokens.
pub struct FupParser<'i> {
    text: &'i str,
    chars: Vec<char>,
    tokens: Vec<Token>,
}

impl<'i> FupParser<'i> {
    #[verifier::type_invariant]
    spec fn well_formed(&self) -> bool {
        &&& self.chars@ == self.text@
        &&& spec_lex(self.chars@) == Ok::<Seq<Token>, int>(self.tokens@)
        &&& tokens_within(self.tokens@, self.chars@.len() as int)
    }

    /// The tokens of the text.
    pub closed spec fn tokens(&self) -> Seq<Token> {
        self.tokens@
    }

    /// The characters of the text.
    pub closed spec fn source(&self) -> Seq<char> {
        self.chars@
    }

    /// Splits `text` into tokens, or reports the position of the first
    /// character that begins no token.
    pub fn new(text: &'i str) -> (r: Result<FupParser<'i>, ParseError>)
        ensures
            match r {
                Ok(p) => p.source() == text@ && spec_lex(text@) == Ok::<Seq<Token>, int>(p.tokens()),
                Err(e) => spec_lex(text@) == Err::<Seq<Token>, int>(e.position as int) && e.kind
                    == ParseErrorKind::Lexical,
            },
    {
        let chars = chars_of(text);
        let n = chars.len();
        match lex(&chars) {
            Ok(tokens) => {
                proof {
                    lemma_lex_tokens_within(chars@, 0);
                }
                Ok(FupParser { text, chars, tokens })
            },
            Err(p) => Err(ParseError { kind: ParseErrorKind::Lexical, position: p }),
        }
    }

    /// The number of tokens.
    pub fn len(&self) -> (n: usize)
        ensures
            n == self.tokens().len(),
    {
        self.tokens.len()
    }

    /// Whether token `i` is of kind `k`.
    pub fn kind_is(&self, i: usize, k: TokenKind) -> (b: bool)
        ensures
            b == is_kind(self.tokens(), i as int, k),
            self.tokens().len() <= usize::MAX,
    {
        i < self.tokens.len() && self.tokens[i].kind == k
    }

    /// Whether token `i` is the word `w`.
    #[verifier::loop_isolation(false)]
    pub fn word_is(&self, i: usize, w: &str) -> (b: bool)
        ensures
            b == is_word(self.tokens(), self.source(), i as int, w@),
            self.tokens().len() <= usize::MAX,
    {
        proof {
            use_type_invariant(self);
        }
        if !self.kind_is(i, TokenKind::Word) {
            return false;
        }
        let t = self.tokens[i];
        assert(t.start < t.end <= self.chars@.len());
        let n = w.unicode_len();
        if t.end - t.start != n {
            return false;
        }
        let ghost text = token_text(self.chars@, t);
        let mut k: usize = 0;
        while k < n
            invariant
                k <= n,
                n == w@.len(),
                t.start + n == t.end <= self.chars@.len(),
                text == self.chars@.subrange(t.start as int, t.end as int),
                forall|m: int| 0 <= m < k ==> text[m] == w@[m],
            decreases n - k,
        {
            if self.chars[t.start + k] != w.get_char(k) {
                assert(text[k as int] != w@[k as int]);
                return false;
            }
            k = k + 1;
        }
        assert(text =~= w@);
        true
    }

    /// Whether token `i` is a name.
    #[verifier::loop_isolation(false)]
    pub fn name_at(&self, i: usize) -> (b: bool)
        ensures
            b == is_name_word(self.tokens(), self.source(), i as int),
            self.tokens().len() <= usize::MAX,
    {
        proof {
            use_type_invariant(self);
        }
        if !self.kind_is(i, TokenKind::Word) {
            return false;
        }
        let t = self.tokens[i];
        assert(t.start < t.end <= self.chars@.len());
        let ghost text = token_text(self.chars@, t);
        let c = self.chars[t.start];
        if !(('a' <= c && c <= 'z') || ('A' <= c && c <= 'Z') || c == '_') {
            assert(!syntax::is_name_start(text[0]));
            return false;
        }
        let mut k: usize = t.start + 1;
        while k < t.end
            invariant
                t.start < k <= t.end <= self.chars@.len(),
                text == self.chars@.subrange(t.start as int, t.end as int),
                forall|m: int| 1 <= m < k - t.start ==> #[trigger] syntax::is_name_char(text[m]),
            decreases t.end - k,
        {
            let c = self.chars[k];
            if !(('a' <= c && c <= 'z') || ('A' <= c && c <= 'Z') || c == '_' || (48 <= c as u32
                && c as u32 <= 57) || c == '?' || c == '!') {
                assert(text[k - t.start] == c);
                assert(!syntax::is_name_char(text[k - t.start]));
                return false;
            }
            k = k + 1;
        }
        true
    }

    /// The atom that holds the text of token `i`.
    pub fn atom(&self, i: usize) -> (t: GrammarTree<'i>)
        requires
            i < self.tokens().len(),
        ensures
            t@ == atom_at(self.tokens(), self.source(), i as int),
    {
        proof {
            use_type_invariant(self);
        }
        let tok = self.tokens[i];
        assert(tok.start < tok.end <= self.chars@.len());
        GrammarTree::Atom(self.text.substring_char(tok.start, tok.end))
    }
}

} // verus!

verus! {

impl<'i> FupParser<'i> {
    /// The expressions from `i` up to the first token that ends the sequence
    /// or begins no expression, and that token's position.
    pub fn parse_items(&self, i: usize) -> (r: (Vec<GrammarTree<'i>>, usize))
        requires
            i <= self.tokens().len(),
        ensures
            spec_items(self.tokens(), self.source(), i as int) == (models(r.0@), r.1 as int),
            i <= r.1 <= self.tokens().len(),
        decreases self.tokens().len() - i, 5nat,
    {
        let mut acc: Vec<GrammarTree<'i>> = Vec::new();
        let mut j = i;
        loop
            invariant
                i <= j <= self.tokens().len(),
                spec_items(self.tokens(), self.source(), i as int) == (
                    models(acc@) + spec_items(self.tokens(), self.source(), j as int).0,
                    spec_items(self.tokens(), self.source(), j as int).1,
                ),
            decreases self.tokens().len() - j,
        {
            if j >= self.len() || self.closer_at(j) {
                assert(models(acc@) + Seq::<SpecTree>::empty() =~= models(acc@));
                return (acc, j);
            }
            match self.parse_item(j) {
                Some((t, k)) => {
                    if !(j < k && k <= self.len()) {
                        assert(models(acc@) + Seq::<SpecTree>::empty() =~= models(acc@));
                        return (acc, j);
                    }
                    proof {
                        let rest = spec_items(self.tokens(), self.source(), k as int);
                        assert(models(acc@.push(t)) =~= models(acc@) + seq![t@]);
                        assert(models(acc@) + (seq![t@] + rest.0) =~= (models(acc@) + seq![t@])
                            + rest.0);
                    }
                    acc.push(t);
                    j = k;
                },
                None => {
                    assert(models(acc@) + Seq::<SpecTree>::empty() =~= models(acc@));
                    return (acc, j);
                },
            }
        }
    }

    /// One expression of a sequence at `i`.
    pub fn parse_item(&self, i: usize) -> (r: Option<(GrammarTree<'i>, usize)>)
        requires
            i <= self.tokens().len(),
        ensures
            tree_result(r, spec_item(self.tokens(), self.source(), i as int)),
        decreases self.tokens().len() - i, 4nat,
    {
        if self.let_head(i) {
            self.parse_let_any(i, true)
        } else {
            self.parse_operator_expression(i)
        }
    }

    /// An operand of an infix expression at `i`.
    pub fn parse_fup_expression(&self, i: usize) -> (r: Option<(GrammarTree<'i>, usize)>)
        requires
            i <= self.tokens().len(),
        ensures
            tree_result(r, spec_term(self.tokens(), self.source(), i as int, false)),
    {
        self.parse_fup_term(i, false)
    }

    /// A term at `i`; `in_scheme` tells whether it stands inside a Scheme
    /// expression.
    pub fn parse_fup_term(&self, i: usize, in_scheme: bool) -> (r: Option<(GrammarTree<'i>, usize)>)
        requires
            i <= self.tokens().len(),
        ensures
            tree_result(r, spec_term(self.tokens(), self.source(), i as int, in_scheme)),
        decreases self.tokens().len() - i, 1nat,
    {
        if i >= self.len() {
            return None;
        }
        let k = self.tokens[i].kind;
        match k {
            TokenKind::OpenBracket => self.parse_list(i),
            TokenKind::Quote | TokenKind::Text => Some((self.atom(i), i + 1)),
            TokenKind::OpenBrace => {
                match self.parse_operator_expression(i + 1) {
                    Some((t, j)) => {
                        if i + 1 < j && j < self.len() && self.kind_is(j, TokenKind::CloseBrace) {
                            self.parse_postfix(t, j + 1)
                        } else {
                            None
                        }
                    },
                    None => None,
                }
            },
            TokenKind::Open => {
                match self.parse_scheme_expression(i) {
                    Some((t, j)) => {
                        if i < j && j <= self.len() {
                            self.parse_postfix(t, j)
                        } else {
                            None
                        }
                    },
                    None => None,
                }
            },
            TokenKind::Word => {
                if self.cond_head(i) {
                    self.parse_cond(i)
                } else if self.define_head(i) {
                    self.parse_define(i)
                } else if self.let_head(i) {
                    self.parse_let_any(i, false)
                } else if self.name_at(i) {
                    self.parse_postfix(self.atom(i), i + 1)
                } else if in_scheme || self.operator_at(i).is_none() {
                    Some((self.atom(i), i + 1))
                } else {
                    None
                }
            },
            _ => None,
        }
    }

    /// Whether a comma stands in the group that is open at `i`, before it
    /// closes.
    pub fn has_top_comma(&self, i: usize) -> (b: bool)
        requires
            i <= self.tokens().len(),
        ensures
            b == spec_has_top_comma(self.tokens(), i as int, 0),
    {
        let mut j = i;
        let mut depth: usize = 0;
        while j < self.len()
            invariant
                i <= j <= self.tokens().len(),
                depth <= j,
                spec_has_top_comma(self.tokens(), i as int, 0) == spec_has_top_comma(
                    self.tokens(),
                    j as int,
                    depth as nat,
                ),
            decreases self.tokens().len() - j,
        {
            let k = self.tokens[j].kind;
            match k {
                TokenKind::Comma => {
                    if depth == 0 {
                        return true;
                    }
                },
                TokenKind::Open | TokenKind::OpenBracket | TokenKind::OpenBrace => {
                    depth = depth + 1;
                },
                TokenKind::Close | TokenKind::CloseBracket | TokenKind::CloseBrace => {
                    if depth == 0 {
                        return false;
                    }
                    depth = depth - 1;
                },
                _ => {},
            }
            j = j + 1;
        }
        false
    }

    /// What follows the term `t` at `i`: a call, an index, or nothing.
    pub fn parse_postfix(&self, t: GrammarTree<'i>, i: usize) -> (r: Option<(GrammarTree<'i>, usize)>)
        requires
            i <= self.tokens().len(),
        ensures
            tree_result(r, spec_postfix(self.tokens(), self.source(), t@, i as int)),
        decreases self.tokens().len() - i, 1nat,
    {
        if self.kind_is(i, TokenKind::Open) && self.has_top_comma(i + 1) {
            self.parse_call(t, i)
        } else if self.kind_is(i, TokenKind::OpenBracket) && self.kind_is(i + 1, TokenKind::Word)
            && self.kind_is(i + 2, TokenKind::CloseBracket) && self.range_shape_at(i + 1) {
            match self.range_at(i + 1) {
                Some(range) => Some((index_tree(t, range), i + 3)),
                None => None,
            }
        } else {
            Some((t, i))
        }
    }

    /// A comma separated list of expressions at `i`, closed by `closer`; it
    /// may be empty and may end in a comma.
    pub fn parse_args(&self, i: usize, closer: TokenKind) -> (r: Option<(Vec<GrammarTree<'i>>, usize)>)
        requires
            i <= self.tokens().len(),
        ensures
            trees_result(r, spec_args(self.tokens(), self.source(), i as int, closer)),
        decreases self.tokens().len() - i, 5nat,
    {
        if self.kind_is(i, closer) {
            let empty: Vec<GrammarTree<'i>> = Vec::new();
            assert(models(empty@) =~= Seq::<SpecTree>::empty());
            Some((empty, i + 1))
        } else if self.kind_is(i, TokenKind::Comma) && self.kind_is(i + 1, closer) {
            let empty: Vec<GrammarTree<'i>> = Vec::new();
            assert(models(empty@) =~= Seq::<SpecTree>::empty());
            Some((empty, i + 2))
        } else {
            self.parse_args_rest(i, closer)
        }
    }

    /// A nonempty comma separated list of expressions at `i`, closed by
    /// `closer`.
    pub fn parse_args_rest(&self, i: usize, closer: TokenKind) -> (r: Option<(Vec<GrammarTree<'i>>, usize)>)
        requires
            i <= self.tokens().len(),
        ensures
            trees_result(r, spec_args_rest(self.tokens(), self.source(), i as int, closer)),
        decreases self.tokens().len() - i, 4nat,
    {
        let mut acc: Vec<GrammarTree<'i>> = Vec::new();
        let mut j = i;
        loop
            invariant
                i <= j <= self.tokens().len(),
                spec_args_rest(self.tokens(), self.source(), i as int, closer) == prepend_trees(
                    models(acc@),
                    spec_args_rest(self.tokens(), self.source(), j as int, closer),
                ),
            decreases self.tokens().len() - j,
        {
            match self.parse_operator_expression(j) {
                Some((t, k)) => {
                    if !(j < k && k <= self.len()) {
                        return None;
                    }
                    assert(models(acc@.push(t)) =~= models(acc@) + seq![t@]);
                    if self.kind_is(k, TokenKind::Comma) {
                        if self.kind_is(k + 1, closer) {
                            acc.push(t);
                            return Some((acc, k + 2));
                        }
                        proof {
                            let rest = spec_args_rest(self.tokens(), self.source(), k + 1, closer);
                            if let Some((x, m)) = rest {
                                assert(models(acc@) + (seq![t@] + x) =~= (models(acc@) + seq![t@]) + x);
                            }
                        }
                        acc.push(t);
                        j = k + 1;
                    } else if self.kind_is(k, closer) {
                        acc.push(t);
                        return Some((acc, k + 1));
                    } else {
                        return None;
                    }
                },
                None => {
                    return None;
                },
            }
        }
    }

    /// The tree of the whole program, or the position of the first token
    /// that begins no expression.
    pub fn parse_program(&self) -> (r: Result<GrammarTree<'i>, usize>)
        ensures
            match r {
                Ok(t) => spec_parse_tokens(self.tokens(), self.source()) == Ok::<SpecTree, int>(t@),
                Err(j) => spec_parse_tokens(self.tokens(), self.source()) == Err::<SpecTree, int>(j as int)
                    && j < self.tokens().len(),
            },
    {
        let (items, j) = self.parse_items(0);
        if j == self.len() {
            proof {
                lemma_list_model(items);
            }
            Ok(GrammarTree::List(items))
        } else {
            Err(j)
        }
    }
}

fn is_closer_kind(k: TokenKind) -> (b: bool)
    ensures
        b == is_closer(k),
{
    match k {
        TokenKind::Close | TokenKind::CloseBracket | TokenKind::CloseBrace | TokenKind::Comma => true,
        _ => false,
    }
}

/// Parses a FUP program into the tree of the Scheme code it stands for.
pub fn parse_input_str<'i>(input: &'i str) -> (r: Result<GrammarTree<'i>, ParseError>)
    ensures
        match r {
            Ok(t) => spec_parse_input(input@) == Ok::<SpecTree, ParseError>(t@),
            Err(e) => spec_parse_input(input@) == Err::<SpecTree, ParseError>(e),
        },
{
    let parser = FupParser::new(input)?;
    match parser.parse_program() {
        Ok(t) => Ok(t),
        Err(j) => {
            let position = parser.token_start(j);
            Err(ParseError { kind: ParseErrorKind::Syntax, position })
        },
    }
}

impl<'i> FupParser<'i> {
    /// Whether token `j` ends a sequence of expressions.
    pub fn closer_at(&self, j: usize) -> (b: bool)
        requires
            j < self.tokens().len(),
        ensures
            b == is_closer(self.tokens()[j as int].kind),
    {
        is_closer_kind(self.tokens[j].kind)
    }

    /// Where token `j` starts in the text.
    pub fn token_start(&self, j: usize) -> (p: usize)
        requires
            j < self.tokens().len(),
        ensures
            p == self.tokens()[j as int].start,
    {
        self.tokens[j].start
    }
}

} // verus!
