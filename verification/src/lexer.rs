//! The tokens of the selector language.
//!
//! A selector is written with keywords, decimal numbers and a few symbols,
//! with any white space between them. Reading the tokens never fails: what
//! is no token of the language becomes [`Token::Unknown`], and the grammar
//! rejects it where it stands.

use crate::tokens::{Delimiter, TokenTree, Tree};
use crate::text::{
    all_digits, chars_of, is_digit, is_digit_char, is_space, is_space_char, is_word, number,
    parse_number,
};
use vstd::prelude::*;

verus! {

/// The words of the selector language.
#[derive(Copy, Clone, Debug, PartialEq, Eq, Hash, Structural)]
pub enum Keyword {
    Stable,
    Beta,
    Nightly,
    Since,
    Before,
    Not,
    Any,
    All,
    MinVer,
}

/// A token of the selector language.
#[derive(Copy, Clone, Debug, PartialEq, Eq, Hash, Structural)]
pub enum Token {
    Word(Keyword),
    /// A run of decimal digits: its value and how many digits it has.
    Number { value: u64, width: usize },
    Dot,
    Dash,
    Comma,
    Open,
    Close,
    /// Anything else: another word, another symbol, a number too large.
    Unknown,
}

/// A character that a word may begin with.
pub open spec fn is_letter(c: char) -> bool {
    ('a' <= c && c <= 'z') || ('A' <= c && c <= 'Z') || c == '_'
}

/// How many decimal digits `s` begins with.
pub open spec fn digit_run(s: Seq<char>) -> nat
    decreases s.len(),
{
    if s.len() > 0 && is_digit(s[0]) {
        1 + digit_run(s.drop_first())
    } else {
        0
    }
}

/// How many letters and digits `s` begins with.
pub open spec fn word_run(s: Seq<char>) -> nat
    decreases s.len(),
{
    if s.len() > 0 && (is_letter(s[0]) || is_digit(s[0])) {
        1 + word_run(s.drop_first())
    } else {
        0
    }
}

/// The keyword that `word` spells.
pub open spec fn keyword_of(word: Seq<char>) -> Option<Keyword> {
    if word == "stable"@ {
        Some(Keyword::Stable)
    } else if word == "beta"@ {
        Some(Keyword::Beta)
    } else if word == "nightly"@ {
        Some(Keyword::Nightly)
    } else if word == "since"@ {
        Some(Keyword::Since)
    } else if word == "before"@ {
        Some(Keyword::Before)
    } else if word == "not"@ {
        Some(Keyword::Not)
    } else if word == "any"@ {
        Some(Keyword::Any)
    } else if word == "all"@ {
        Some(Keyword::All)
    } else if word == "minver"@ {
        Some(Keyword::MinVer)
    } else {
        None
    }
}

/// The token that the symbol `c` is.
pub open spec fn symbol(c: char) -> Token {
    if c == '.' {
        Token::Dot
    } else if c == '-' {
        Token::Dash
    } else if c == ',' {
        Token::Comma
    } else if c == '(' {
        Token::Open
    } else if c == ')' {
        Token::Close
    } else {
        Token::Unknown
    }
}

/// The token that a run of digits is.
pub open spec fn number_token(run: Seq<char>) -> Token {
    match number(run, u64::MAX as nat) {
        Some(value) => Token::Number { value: value as u64, width: run.len() as usize },
        None => Token::Unknown,
    }
}

/// The token that a run of letters and digits is.
pub open spec fn word_token(run: Seq<char>) -> Token {
    match keyword_of(run) {
        Some(keyword) => Token::Word(keyword),
        None => Token::Unknown,
    }
}

/// The length of the token that `s` begins with. A token is the longest
/// run of digits, the longest run of letters and digits, or one other
/// character.
pub open spec fn first_len(s: Seq<char>) -> nat
    recommends
        s.len() > 0,
        !is_space(s[0]),
{
    if is_digit(s[0]) {
        digit_run(s)
    } else if is_letter(s[0]) {
        word_run(s)
    } else {
        1
    }
}

/// The token that `s` begins with.
pub open spec fn first_token(s: Seq<char>) -> Token
    recommends
        s.len() > 0,
        !is_space(s[0]),
{
    if is_digit(s[0]) {
        number_token(s.take(digit_run(s) as int))
    } else if is_letter(s[0]) {
        word_token(s.take(word_run(s) as int))
    } else {
        symbol(s[0])
    }
}

/// The tokens of `s`, in order. White space separates tokens and is
/// otherwise skipped.
pub open spec fn lex(s: Seq<char>) -> Seq<Token>
    decreases s.len(),
{
    if s.len() == 0 {
        Seq::empty()
    } else if is_space(s[0]) {
        lex(s.drop_first())
    } else {
        proof {
            lemma_first_len(s);
        }
        seq![first_token(s)] + lex(s.skip(first_len(s) as int))
    }
}

/// A run is no longer than the text it begins.
pub proof fn lemma_runs(s: Seq<char>)
    ensures
        digit_run(s) <= s.len(),
        word_run(s) <= s.len(),
        all_digits(s.take(digit_run(s) as int)),
    decreases s.len(),
{
    if s.len() > 0 {
        lemma_runs(s.drop_first());
        if is_digit(s[0]) {
            let run = digit_run(s);
            let rest = s.drop_first();
            assert forall|i: int| 0 <= i < run implies is_digit(#[trigger] s.take(run as int)[i]) by {
                if i > 0 {
                    assert(s.take(run as int)[i] == rest.take(digit_run(rest) as int)[i - 1]);
                }
            }
        }
    }
}

/// A token has at least one character and ends within the text.
pub proof fn lemma_first_len(s: Seq<char>)
    requires
        s.len() > 0,
    ensures
        1 <= first_len(s) <= s.len(),
{
    lemma_runs(s);
}

/// Tells whether `c` may begin a word.
pub fn is_letter_char(c: char) -> (b: bool)
    ensures
        b == is_letter(c),
{
    ('a' <= c && c <= 'z') || ('A' <= c && c <= 'Z') || c == '_'
}

/// The keyword that `word` spells.
pub fn keyword(word: &Vec<char>) -> (out: Option<Keyword>)
    ensures
        out == keyword_of(word@),
{
    if is_word(word, "stable") {
        Some(Keyword::Stable)
    } else if is_word(word, "beta") {
        Some(Keyword::Beta)
    } else if is_word(word, "nightly") {
        Some(Keyword::Nightly)
    } else if is_word(word, "since") {
        Some(Keyword::Since)
    } else if is_word(word, "before") {
        Some(Keyword::Before)
    } else if is_word(word, "not") {
        Some(Keyword::Not)
    } else if is_word(word, "any") {
        Some(Keyword::Any)
    } else if is_word(word, "all") {
        Some(Keyword::All)
    } else if is_word(word, "minver") {
        Some(Keyword::MinVer)
    } else {
        None
    }
}

/// The token that the symbol `c` is.
pub fn symbol_token(c: char) -> (out: Token)
    ensures
        out == symbol(c),
{
    if c == '.' {
        Token::Dot
    } else if c == '-' {
        Token::Dash
    } else if c == ',' {
        Token::Comma
    } else if c == '(' {
        Token::Open
    } else if c == ')' {
        Token::Close
    } else {
        Token::Unknown
    }
}

/// Copies the characters of `s` from `from` up to `to`.
pub(crate) fn copy_range(s: &Vec<char>, from: usize, to: usize) -> (out: Vec<char>)
    requires
        from <= to <= s.len(),
    ensures
        out@ == s@.subrange(from as int, to as int),
{
    let mut out: Vec<char> = Vec::new();
    let mut i: usize = from;
    while i < to
        invariant
            from <= i <= to <= s.len(),
            out@ == s@.subrange(from as int, i as int),
        decreases to - i,
    {
        out.push(s[i]);
        assert(s@.subrange(from as int, i + 1) == s@.subrange(from as int, i as int).push(
            s@[i as int],
        ));
        i += 1;
    }
    out
}

/// Reads the tokens of the characters `s`.
pub fn tokens_of(s: &Vec<char>) -> (out: Vec<Token>)
    ensures
        out@ == lex(s@),
{
    let mut out: Vec<Token> = Vec::new();
    let mut i: usize = 0;
    assert(s@.skip(0) == s@);
    while i < s.len()
        invariant
            i <= s.len(),
            out@ + lex(s@.skip(i as int)) == lex(s@),
        decreases s.len() - i,
    {
        let ghost rest = s@.skip(i as int);
        let c = s[i];
        assert(rest[0] == c);
        if is_space_char(c) {
            assert(rest.drop_first() == s@.skip(i + 1));
            i += 1;
        } else {
            let start = i;
            let token = if is_digit_char(c) {
                while i < s.len() && is_digit_char(s[i])
                    invariant
                        start <= i <= s.len(),
                        rest == s@.skip(start as int),
                        digit_run(rest) == (i - start) + digit_run(s@.skip(i as int)),
                    decreases s.len() - i,
                {
                    assert(s@.skip(i as int).drop_first() == s@.skip(i + 1));
                    i += 1;
                }
                assert(s@.subrange(start as int, i as int) == rest.take(digit_run(rest) as int));
                let run = copy_range(s, start, i);
                match parse_number(&run, u64::MAX) {
                    Some(value) => Token::Number { value, width: run.len() },
                    None => Token::Unknown,
                }
            } else if is_letter_char(c) {
                while i < s.len() && (is_letter_char(s[i]) || is_digit_char(s[i]))
                    invariant
                        start <= i <= s.len(),
                        rest == s@.skip(start as int),
                        word_run(rest) == (i - start) + word_run(s@.skip(i as int)),
                    decreases s.len() - i,
                {
                    assert(s@.skip(i as int).drop_first() == s@.skip(i + 1));
                    i += 1;
                }
                assert(s@.subrange(start as int, i as int) == rest.take(word_run(rest) as int));
                let run = copy_range(s, start, i);
                match keyword(&run) {
                    Some(word) => Token::Word(word),
                    None => Token::Unknown,
                }
            } else {
                i += 1;
                symbol_token(c)
            };
            proof {
                assert(token == first_token(rest));
                assert(i - start == first_len(rest));
                assert(rest.skip(first_len(rest) as int) == s@.skip(i as int));
                assert(out@.push(token) + lex(s@.skip(i as int)) == out@ + (seq![token] + lex(
                    s@.skip(i as int),
                )));
            }
            out.push(token);
        }
    }
    assert(s@.skip(i as int).len() == 0);
    assert(out@ + Seq::<Token>::empty() == out@);
    out
}

/// Reads the tokens of a selector's text.
pub fn tokenize(text: &str) -> (out: Vec<Token>)
    ensures
        out@ == lex(text@),
{
    let chars = chars_of(text);
    tokens_of(&chars)
}

/// The tokens that a token tree stands for in a selector.
///
/// An identifier is a word and a punctuation character a symbol. A literal
/// is read as text, so that `1.31` gives the three tokens of a release
/// number. A group in parentheses gives its tokens between the two
/// parentheses, a transparent group gives its tokens alone, and a group in
/// braces or brackets is no part of the language.
pub open spec fn tree_tokens(tree: Tree) -> Seq<Token>
    decreases tree,
{
    match tree {
        Tree::Ident(name) => seq![word_token(name)],
        Tree::Literal(text) => lex(text),
        Tree::Punct(mark, _) => seq![symbol(mark)],
        Tree::Group(Delimiter::Parenthesis, stream) => seq![Token::Open] + trees_tokens(stream)
            + seq![Token::Close],
        Tree::Group(Delimiter::Invisible, stream) => trees_tokens(stream),
        Tree::Group(_, _) => seq![Token::Unknown],
    }
}

/// The tokens that a list of token trees stands for in a selector.
pub open spec fn trees_tokens(list: Seq<Tree>) -> Seq<Token>
    decreases list,
{
    if list.len() == 0 {
        Seq::empty()
    } else {
        trees_tokens(list.drop_last()) + tree_tokens(list.last())
    }
}

/// Appends to `out` the selector tokens of `tree`.
pub fn push_tree_tokens(tree: &TokenTree, out: &mut Vec<Token>)
    ensures
        final(out)@ == old(out)@ + tree_tokens(tree@),
    decreases tree,
{
    match tree {
        TokenTree::Ident(name) => {
            let chars = chars_of(name.as_str());
            let token = match keyword(&chars) {
                Some(word) => Token::Word(word),
                None => Token::Unknown,
            };
            out.push(token);
            assert(out@ == old(out)@ + seq![token]);
        },
        TokenTree::Literal(text) => {
            let mut tokens = tokenize(text.as_str());
            out.append(&mut tokens);
        },
        TokenTree::Punct(mark, _) => {
            let token = symbol_token(*mark);
            out.push(token);
            assert(out@ == old(out)@ + seq![token]);
        },
        TokenTree::Group(Delimiter::Parenthesis, stream) => {
            out.push(Token::Open);
            push_trees_tokens(stream, out);
            out.push(Token::Close);
            assert(out@ == old(out)@ + (seq![Token::Open] + trees_tokens(TokenTree::models(stream@))
                + seq![Token::Close]));
        },
        TokenTree::Group(Delimiter::Invisible, stream) => {
            push_trees_tokens(stream, out);
        },
        TokenTree::Group(_, _) => {
            out.push(Token::Unknown);
            assert(out@ == old(out)@ + seq![Token::Unknown]);
        },
    }
}

/// Appends to `out` the selector tokens of the trees of `list`.
pub fn push_trees_tokens(list: &Vec<TokenTree>, out: &mut Vec<Token>)
    ensures
        final(out)@ == old(out)@ + trees_tokens(TokenTree::models(list@)),
    decreases list@,
{
    let ghost models = TokenTree::models(list@);
    let mut i: usize = 0;
    assert(models.take(0) == Seq::<Tree>::empty());
    assert(out@ + Seq::<Token>::empty() == out@);
    while i < list.len()
        invariant
            i <= list.len(),
            models == TokenTree::models(list@),
            out@ == old(out)@ + trees_tokens(models.take(i as int)),
        decreases list.len() - i,
    {
        let ghost before = out@;
        push_tree_tokens(&list[i], out);
        proof {
            assert(models.take(i + 1).drop_last() == models.take(i as int));
            assert(models.take(i + 1).last() == list@[i as int]@);
            assert(before + tree_tokens(list@[i as int]@) == old(out)@ + (trees_tokens(
                models.take(i as int),
            ) + tree_tokens(list@[i as int]@)));
        }
        i += 1;
    }
    assert(models.take(i as int) == models);
}

/// Reads the selector tokens of a list of token trees.
pub fn tokens_of_trees(list: &Vec<TokenTree>) -> (out: Vec<Token>)
    ensures
        out@ == trees_tokens(TokenTree::models(list@)),
{
    let mut out: Vec<Token> = Vec::new();
    push_trees_tokens(list, &mut out);
    assert(Seq::<Token>::empty() + trees_tokens(TokenTree::models(list@)) == trees_tokens(
        TokenTree::models(list@),
    ));
    out
}

} // verus!
