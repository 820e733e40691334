use vstd::prelude::*;
use vstd::std_specs::iter::IteratorSpec;

verus! {

broadcast use vstd::string::group_string_axioms;

/// The characters of `text`, in order.
pub fn chars_of(text: &str) -> (v: Vec<char>)
    ensures
        v@ == text@,
{
    let mut v: Vec<char> = Vec::new();
    let mut it = text.chars();
    let ghost all = it.remaining();
    assert(all == text@);
    loop
        invariant
            all == text@,
            it.obeys_prophetic_iter_laws(),
            all == v@ + it.remaining(),
            it.decrease() is Some,
        decreases it.decrease()->0,
    {
        match it.next() {
            Some(c) => {
                v.push(c);
            },
            None => {
                assert(v@ =~= text@);
                return v;
            },
        }
    }
}


/// The kinds of tokens of FUP source text.
#[derive(Clone, Copy, Debug, PartialEq, Eq, Structural)]
pub enum TokenKind {
    /// `(`
    Open,
    /// `)`
    Close,
    /// `[`
    OpenBracket,
    /// `]`
    CloseBracket,
    /// `{`
    OpenBrace,
    /// `}`
    CloseBrace,
    /// `,`
    Comma,
    /// A run of characters that are neither white space nor delimiters.
    Word,
    /// A string literal, quotes included.
    Text,
    /// A quoted datum: `'` followed by a word or by a parenthesised datum.
    Quote,
}

/// A token: its kind and the character range `start .. end` it spans.
#[derive(Clone, Copy, Debug, PartialEq, Eq, Structural)]
pub struct Token {
    pub kind: TokenKind,
    pub start: usize,
    pub end: usize,
}

pub open spec fn is_space(c: char) -> bool {
    c == ' ' || c == '\t' || c == '\n' || c == '\r'
}

/// Characters that end a word.
pub open spec fn is_delimiter(c: char) -> bool {
    is_space(c) || c == '(' || c == ')' || c == '[' || c == ']' || c == '{' || c == '}' || c == ','
        || c == ';' || c == '"'
}

/// The position of the first character at or after `i` that ends a word.
pub open spec fn spec_word_run_end(s: Seq<char>, i: int) -> int
    decreases s.len() - i,
{
    if i >= s.len() || i < 0 {
        i
    } else if is_delimiter(s[i]) {
        i
    } else {
        spec_word_run_end(s, i + 1)
    }
}

/// The end of the word starting at `i`; a character literal `#\c` keeps its
/// character `c` whatever it is.
pub open spec fn spec_word_end(s: Seq<char>, i: int) -> int {
    if i + 2 < s.len() && s[i] == '#' && s[i + 1] == '\\' {
        spec_word_run_end(s, i + 3)
    } else {
        spec_word_run_end(s, i)
    }
}

/// The end of the comment starting at `i`: the next line break, or the end.
pub open spec fn spec_comment_end(s: Seq<char>, i: int) -> int
    decreases s.len() - i,
{
    if i >= s.len() || i < 0 {
        i
    } else if s[i] == '\n' {
        i
    } else {
        spec_comment_end(s, i + 1)
    }
}

/// The position after the closing quote of a string whose body starts at
/// `i`; a backslash escapes the character after it.
pub open spec fn spec_string_end(s: Seq<char>, i: int) -> Option<int>
    decreases s.len() - i,
{
    if i >= s.len() || i < 0 {
        None
    } else if s[i] == '"' {
        Some(i + 1)
    } else if s[i] == '\\' {
        if i + 1 < s.len() {
            spec_string_end(s, i + 2)
        } else {
            None
        }
    } else {
        spec_string_end(s, i + 1)
    }
}

/// The position after the parenthesis that closes a datum, scanning from `i`
/// with `depth` parentheses open; strings inside are skipped whole.
pub open spec fn spec_datum_end(s: Seq<char>, i: int, depth: nat) -> Option<int>
    decreases s.len() - i,
{
    if i >= s.len() || i < 0 || depth == 0 {
        None
    } else if s[i] == '(' {
        spec_datum_end(s, i + 1, depth + 1)
    } else if s[i] == ')' {
        if depth == 1 {
            Some(i + 1)
        } else {
            spec_datum_end(s, i + 1, (depth - 1) as nat)
        }
    } else if s[i] == '"' {
        match spec_string_end(s, i + 1) {
            Some(e) => if i < e <= s.len() {
                spec_datum_end(s, e, depth)
            } else {
                None
            },
            None => None,
        }
    } else {
        spec_datum_end(s, i + 1, depth)
    }
}

/// The kind of a one-character token.
pub open spec fn punctuation_kind(c: char) -> Option<TokenKind> {
    if c == '(' {
        Some(TokenKind::Open)
    } else if c == ')' {
        Some(TokenKind::Close)
    } else if c == '[' {
        Some(TokenKind::OpenBracket)
    } else if c == ']' {
        Some(TokenKind::CloseBracket)
    } else if c == '{' {
        Some(TokenKind::OpenBrace)
    } else if c == '}' {
        Some(TokenKind::CloseBrace)
    } else if c == ',' {
        Some(TokenKind::Comma)
    } else {
        None
    }
}

/// The end of the quoted datum whose quote mark stands at `i`.
pub open spec fn spec_quote_end(s: Seq<char>, i: int) -> Option<int> {
    if i + 1 < s.len() && s[i + 1] == '(' {
        spec_datum_end(s, i + 2, 1)
    } else if i + 1 < s.len() && !is_delimiter(s[i + 1]) {
        Some(spec_word_end(s, i + 1))
    } else {
        None
    }
}

/// The tokens of `s` from position `i` on, or the position of the first
/// character that begins no token: an unterminated string, or a quote mark
/// with no datum after it.
pub open spec fn spec_lex_from(s: Seq<char>, i: int) -> Result<Seq<Token>, int>
    decreases s.len() - i,
{
    if i >= s.len() || i < 0 {
        Ok(Seq::empty())
    } else {
        let c = s[i];
        if is_space(c) {
            spec_lex_from(s, i + 1)
        } else if c == ';' {
            let e = spec_comment_end(s, i);
            if i < e <= s.len() {
                spec_lex_from(s, e)
            } else {
                Err(i)
            }
        } else if punctuation_kind(c) is Some {
            let t = Token { kind: punctuation_kind(c)->0, start: i as usize, end: (i + 1) as usize };
            match spec_lex_from(s, i + 1) {
                Ok(rest) => Ok(seq![t] + rest),
                Err(e) => Err(e),
            }
        } else {
            let (kind, end) = if c == '"' {
                (TokenKind::Text, spec_string_end(s, i + 1))
            } else if c == '\'' {
                (TokenKind::Quote, spec_quote_end(s, i))
            } else {
                (TokenKind::Word, Some(spec_word_end(s, i)))
            };
            match end {
                Some(e) => if i < e <= s.len() {
                    let t = Token { kind, start: i as usize, end: e as usize };
                    match spec_lex_from(s, e) {
                        Ok(rest) => Ok(seq![t] + rest),
                        Err(p) => Err(p),
                    }
                } else {
                    Err(i)
                },
                None => Err(i),
            }
        }
    }
}

/// The tokens of the whole text `s`.
pub open spec fn spec_lex(s: Seq<char>) -> Result<Seq<Token>, int> {
    spec_lex_from(s, 0)
}


/// `acc` followed by the tokens of a lexing result, or its error.
pub open spec fn after_tokens(acc: Seq<Token>, r: Result<Seq<Token>, int>) -> Result<Seq<Token>, int> {
    match r {
        Ok(rest) => Ok(acc + rest),
        Err(e) => Err(e),
    }
}

fn is_space_char(c: char) -> (b: bool)
    ensures
        b == is_space(c),
{
    c == ' ' || c == '\t' || c == '\n' || c == '\r'
}

fn is_delimiter_char(c: char) -> (b: bool)
    ensures
        b == is_delimiter(c),
{
    is_space_char(c) || c == '(' || c == ')' || c == '[' || c == ']' || c == '{' || c == '}'
        || c == ',' || c == ';' || c == '"'
}

fn punctuation(c: char) -> (k: Option<TokenKind>)
    ensures
        k == punctuation_kind(c),
{
    if c == '(' {
        Some(TokenKind::Open)
    } else if c == ')' {
        Some(TokenKind::Close)
    } else if c == '[' {
        Some(TokenKind::OpenBracket)
    } else if c == ']' {
        Some(TokenKind::CloseBracket)
    } else if c == '{' {
        Some(TokenKind::OpenBrace)
    } else if c == '}' {
        Some(TokenKind::CloseBrace)
    } else if c == ',' {
        Some(TokenKind::Comma)
    } else {
        None
    }
}

fn word_run_end(s: &Vec<char>, i: usize) -> (e: usize)
    requires
        i <= s.len(),
    ensures
        e == spec_word_run_end(s@, i as int),
        i <= e <= s.len(),
{
    let mut j = i;
    while j < s.len() && !is_delimiter_char(s[j])
        invariant
            i <= j <= s.len(),
            spec_word_run_end(s@, i as int) == spec_word_run_end(s@, j as int),
        decreases s.len() - j,
    {
        j = j + 1;
    }
    j
}

fn word_end(s: &Vec<char>, i: usize) -> (e: usize)
    requires
        i <= s.len(),
    ensures
        e == spec_word_end(s@, i as int),
        i <= e <= s.len(),
{
    if i < s.len() && s.len() - i > 2 && s[i] == '#' && s[i + 1] == '\\' {
        word_run_end(s, i + 3)
    } else {
        word_run_end(s, i)
    }
}

fn comment_end(s: &Vec<char>, i: usize) -> (e: usize)
    requires
        i <= s.len(),
    ensures
        e == spec_comment_end(s@, i as int),
        i <= e <= s.len(),
{
    let mut j = i;
    while j < s.len() && s[j] != '\n'
        invariant
            i <= j <= s.len(),
            spec_comment_end(s@, i as int) == spec_comment_end(s@, j as int),
        decreases s.len() - j,
    {
        j = j + 1;
    }
    j
}

fn string_end(s: &Vec<char>, i: usize) -> (e: Option<usize>)
    requires
        i <= s.len(),
    ensures
        match e {
            Some(p) => spec_string_end(s@, i as int) == Some(p as int) && i < p <= s.len(),
            None => spec_string_end(s@, i as int) is None,
        },
{
    let mut j = i;
    while j < s.len()
        invariant
            i <= j <= s.len(),
            spec_string_end(s@, i as int) == spec_string_end(s@, j as int),
        decreases s.len() - j,
    {
        if s[j] == '"' {
            return Some(j + 1);
        } else if s[j] == '\\' {
            if j + 1 < s.len() {
                j = j + 2;
            } else {
                return None;
            }
        } else {
            j = j + 1;
        }
    }
    None
}

fn datum_end(s: &Vec<char>, i: usize) -> (e: Option<usize>)
    requires
        1 <= i <= s.len(),
    ensures
        match e {
            Some(p) => spec_datum_end(s@, i as int, 1) == Some(p as int) && i < p <= s.len(),
            None => spec_datum_end(s@, i as int, 1) is None,
        },
{
    let mut j = i;
    let mut depth: usize = 1;
    while j < s.len()
        invariant
            i <= j <= s.len(),
            1 <= i,
            1 <= depth <= j - i + 1,
            spec_datum_end(s@, i as int, 1) == spec_datum_end(s@, j as int, depth as nat),
        decreases s.len() - j,
    {
        let c = s[j];
        if c == '(' {
            depth = depth + 1;
            j = j + 1;
        } else if c == ')' {
            if depth == 1 {
                return Some(j + 1);
            }
            depth = depth - 1;
            j = j + 1;
        } else if c == '"' {
            match string_end(s, j + 1) {
                Some(e) => {
                    j = e;
                },
                None => {
                    return None;
                },
            }
        } else {
            j = j + 1;
        }
    }
    None
}

fn quote_end(s: &Vec<char>, i: usize) -> (e: Option<usize>)
    requires
        i < s.len(),
    ensures
        match e {
            Some(p) => spec_quote_end(s@, i as int) == Some(p as int) && i < p <= s.len(),
            None => spec_quote_end(s@, i as int) is None,
        },
{
    if i + 1 < s.len() && s[i + 1] == '(' {
        datum_end(s, i + 2)
    } else if i + 1 < s.len() && !is_delimiter_char(s[i + 1]) {
        Some(word_end(s, i + 1))
    } else {
        None
    }
}

/// Splits `s` into tokens, skipping white space and `;` comments; fails at
/// the position of the first character that begins no token.
pub fn lex(s: &Vec<char>) -> (r: Result<Vec<Token>, usize>)
    ensures
        match r {
            Ok(v) => spec_lex(s@) == Ok::<Seq<Token>, int>(v@),
            Err(p) => spec_lex(s@) == Err::<Seq<Token>, int>(p as int),
        },
{
    let mut acc: Vec<Token> = Vec::new();
    let mut i: usize = 0;
    while i < s.len()
        invariant
            i <= s.len(),
            spec_lex(s@) == after_tokens(acc@, spec_lex_from(s@, i as int)),
        decreases s.len() - i,
    {
        let c = s[i];
        if is_space_char(c) {
            i = i + 1;
        } else if c == ';' {
            let e = comment_end(s, i);
            if e == i {
                return Err(i);
            }
            i = e;
        } else if let Some(kind) = punctuation(c) {
            let t = Token { kind, start: i, end: i + 1 };
            proof {
                let rest = spec_lex_from(s@, i + 1);
                assert(spec_lex_from(s@, i as int) == after_tokens(seq![t], rest));
                match rest {
                    Ok(r) => assert(acc@ + (seq![t] + r) =~= acc@.push(t) + r),
                    Err(_) => {},
                }
            }
            acc.push(t);
            i = i + 1;
        } else {
            let (kind, end) = if c == '"' {
                (TokenKind::Text, string_end(s, i + 1))
            } else if c == '\'' {
                (TokenKind::Quote, quote_end(s, i))
            } else {
                (TokenKind::Word, Some(word_end(s, i)))
            };
            match end {
                Some(e) => {
                    if e <= i {
                        return Err(i);
                    }
                    let t = Token { kind, start: i, end: e };
                    proof {
                        let rest = spec_lex_from(s@, e as int);
                        assert(spec_lex_from(s@, i as int) == after_tokens(seq![t], rest));
                        match rest {
                            Ok(r) => assert(acc@ + (seq![t] + r) =~= acc@.push(t) + r),
                            Err(_) => {},
                        }
                    }
                    acc.push(t);
                    i = e;
                },
                None => {
                    return Err(i);
                },
            }
        }
    }
    assert(acc@ + Seq::<Token>::empty() =~= acc@);
    Ok(acc)
}


/// Every token spans a nonempty range of characters within `0 .. n`.
pub open spec fn tokens_within(ts: Seq<Token>, n: int) -> bool {
    forall|k: int| 0 <= k < ts.len() ==> #[trigger] ts[k].start < ts[k].end <= n
}

/// The tokens that lexing yields span nonempty ranges of the text.
pub proof fn lemma_lex_tokens_within(s: Seq<char>, i: int)
    requires
        0 <= i,
        s.len() <= usize::MAX,
    ensures
        spec_lex_from(s, i) matches Ok(ts) ==> tokens_within(ts, s.len() as int),
    decreases s.len() - i,
{
    if 0 <= i < s.len() {
        let c = s[i];
        if is_space(c) {
            lemma_lex_tokens_within(s, i + 1);
            assert(spec_lex_from(s, i) == spec_lex_from(s, i + 1));
        } else if c == ';' {
            let e = spec_comment_end(s, i);
            if i < e <= s.len() {
                lemma_lex_tokens_within(s, e);
                assert(spec_lex_from(s, i) == spec_lex_from(s, e));
            }
        } else if punctuation_kind(c) is Some {
            lemma_lex_tokens_within(s, i + 1);
            let t = Token { kind: punctuation_kind(c)->0, start: i as usize, end: (i + 1) as usize };
            lemma_prepend_token_within(s, i + 1, t);
        } else {
            let (kind, end) = if c == '"' {
                (TokenKind::Text, spec_string_end(s, i + 1))
            } else if c == '\'' {
                (TokenKind::Quote, spec_quote_end(s, i))
            } else {
                (TokenKind::Word, Some(spec_word_end(s, i)))
            };
            if let Some(e) = end {
                if i < e <= s.len() {
                    lemma_lex_tokens_within(s, e);
                    let t = Token { kind, start: i as usize, end: e as usize };
                    lemma_prepend_token_within(s, e, t);
                }
            }
        }
    }
}

/// A token within the text, followed by the tokens lexed from `e`, lies
/// within the text.
proof fn lemma_prepend_token_within(s: Seq<char>, e: int, t: Token)
    requires
        0 <= e <= s.len(),
        t.start < t.end <= s.len(),
        spec_lex_from(s, e) matches Ok(rest) ==> tokens_within(rest, s.len() as int),
    ensures
        spec_lex_from(s, e) matches Ok(rest) ==> tokens_within(seq![t] + rest, s.len() as int),
{
    if let Ok(rest) = spec_lex_from(s, e) {
        let ts = seq![t] + rest;
        assert forall|k: int| 0 <= k < ts.len() implies #[trigger] ts[k].start < ts[k].end <= s.len() by {
            if k > 0 {
                assert(ts[k] == rest[k - 1]);
            }
        }
    }
}

} // verus!
