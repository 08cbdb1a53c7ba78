//! Reading back what was written: the text that a selector is written as
//! is read as that selector again.

use crate::bound::Bound;
use crate::date::{digits, lemma_digits, lemma_padded, padded, Date};
use crate::expr::Selector;
use crate::grammar::{
    argument_at, date_at, lemma_selector_advances, list_at, release_at, selector_at,
    selector_in, token_at, SyntaxError,
};
use crate::lexer::{
    digit_run, is_letter, lex, number_token, symbol, word_run, word_token, Keyword, Token,
};
use crate::release::ReleaseSelector;
use crate::text::{all_digits, decimal, is_digit, is_space};
use vstd::prelude::*;

verus! {

/// A character that a word may go on with.
pub open spec fn is_word_char(c: char) -> bool {
    is_letter(c) || is_digit(c)
}

/// `rest` does not go on with a word or a number.
pub open spec fn breaks(rest: Seq<char>) -> bool {
    rest.len() == 0 || !is_word_char(rest[0])
}

/// The token of the number `n` written in the digits `written`.
pub open spec fn number_of(n: nat, written: Seq<char>) -> Token {
    Token::Number { value: n as u64, width: written.len() as usize }
}

/// The tokens of a date in its literal form.
pub open spec fn date_tokens(date: Date) -> Seq<Token> {
    seq![
        number_of(date.year as nat, padded(date.year as nat, 4)),
        Token::Dash,
        number_of(date.month as nat, padded(date.month as nat, 2)),
        Token::Dash,
        number_of(date.day as nat, padded(date.day as nat, 2)),
    ]
}

/// The tokens of a release number as a selector names it.
pub open spec fn release_tokens(release: ReleaseSelector) -> Seq<Token> {
    let front = seq![
        Token::Number { value: 1, width: 1 },
        Token::Dot,
        number_of(release.minor as nat, digits(release.minor as nat)),
    ];
    match release.patch {
        Some(patch) => front + seq![Token::Dot, number_of(patch as nat, digits(patch as nat))],
        None => front,
    }
}

/// The tokens of a bound as a selector names it.
pub open spec fn bound_tokens(bound: Bound) -> Seq<Token> {
    match bound {
        Bound::Nightly(date) => date_tokens(date),
        Bound::Stable(release) => release_tokens(release),
    }
}

/// The tokens of a keyword with an argument in parentheses.
pub open spec fn applied(word: Keyword, argument: Seq<Token>) -> Seq<Token> {
    seq![Token::Word(word), Token::Open] + argument + seq![Token::Close]
}

impl Selector {
    /// Every date in the selector is within the limits of a date.
    pub open spec fn well_formed(self) -> bool
        decreases self,
    {
        match self {
            Selector::NightlyDate(date) => date.valid(),
            Selector::Since(Bound::Nightly(date)) => date.valid(),
            Selector::Before(Bound::Nightly(date)) => date.valid(),
            Selector::MinVer(Bound::Nightly(date)) => date.valid(),
            Selector::Not(inner) => inner.well_formed(),
            Selector::Any(list) => forall|i: int|
                0 <= i < list.len() ==> (#[trigger] list[i]).well_formed(),
            Selector::All(list) => forall|i: int|
                0 <= i < list.len() ==> (#[trigger] list[i]).well_formed(),
            _ => true,
        }
    }

    /// The tokens of the selector as it is written.
    pub open spec fn tokens(self) -> Seq<Token>
        decreases self, 0nat,
    {
        match self {
            Selector::Stable => seq![Token::Word(Keyword::Stable)],
            Selector::Beta => seq![Token::Word(Keyword::Beta)],
            Selector::Nightly => seq![Token::Word(Keyword::Nightly)],
            Selector::NightlyDate(date) => applied(Keyword::Nightly, date_tokens(date)),
            Selector::Since(bound) => applied(Keyword::Since, bound_tokens(bound)),
            Selector::Before(bound) => applied(Keyword::Before, bound_tokens(bound)),
            Selector::ReleaseIs(release) => applied(Keyword::Stable, release_tokens(release)),
            Selector::Not(inner) => applied(Keyword::Not, inner.tokens()),
            Selector::Any(list) => applied(Keyword::Any, Selector::list_tokens(list, list.len())),
            Selector::All(list) => applied(Keyword::All, Selector::list_tokens(list, list.len())),
            Selector::MinVer(bound) => applied(Keyword::MinVer, bound_tokens(bound)),
        }
    }

    /// The tokens of the first `count` selectors of `list` as they are
    /// written, with a comma between them.
    pub open spec fn list_tokens(list: Seq<Selector>, count: nat) -> Seq<Token>
        decreases list, count,
    {
        if count == 0 || count > list.len() {
            Seq::empty()
        } else if count == 1 {
            list[0].tokens()
        } else {
            Selector::list_tokens(list, (count - 1) as nat) + seq![Token::Comma] + list[count
                - 1].tokens()
        }
    }
}

/// A run of digits that something else follows is a run of its own.
proof fn lemma_digit_run_of(run: Seq<char>, rest: Seq<char>)
    requires
        all_digits(run),
        rest.len() == 0 || !is_digit(rest[0]),
    ensures
        digit_run(run + rest) == run.len(),
    decreases run.len(),
{
    if run.len() == 0 {
        assert(run + rest == rest);
    } else {
        assert((run + rest)[0] == run[0]);
        assert((run + rest).drop_first() == run.drop_first() + rest);
        assert forall|i: int| 0 <= i < run.drop_first().len() implies is_digit(
            #[trigger] run.drop_first()[i],
        ) by {
            assert(run.drop_first()[i] == run[i + 1]);
        }
        lemma_digit_run_of(run.drop_first(), rest);
    }
}

/// A run of letters and digits that something else follows is a run of its
/// own.
proof fn lemma_word_run_of(run: Seq<char>, rest: Seq<char>)
    requires
        forall|i: int| 0 <= i < run.len() ==> is_word_char(#[trigger] run[i]),
        breaks(rest),
    ensures
        word_run(run + rest) == run.len(),
    decreases run.len(),
{
    if run.len() == 0 {
        assert(run + rest == rest);
    } else {
        assert((run + rest)[0] == run[0]);
        assert((run + rest).drop_first() == run.drop_first() + rest);
        assert forall|i: int| 0 <= i < run.drop_first().len() implies is_word_char(
            #[trigger] run.drop_first()[i],
        ) by {
            assert(run.drop_first()[i] == run[i + 1]);
        }
        lemma_word_run_of(run.drop_first(), rest);
    }
}

/// A run of digits is read as one number, and what follows it on its own.
proof fn lemma_lex_number(run: Seq<char>, rest: Seq<char>)
    requires
        run.len() > 0,
        all_digits(run),
        rest.len() == 0 || !is_digit(rest[0]),
    ensures
        lex(run + rest) == seq![number_token(run)] + lex(rest),
{
    let s = run + rest;
    lemma_digit_run_of(run, rest);
    assert(s[0] == run[0]);
    assert(is_digit(run[0]));
    assert(s.take(run.len() as int) == run);
    assert(s.skip(run.len() as int) == rest);
}

/// A word is read as one token, and what follows it on its own.
proof fn lemma_lex_word(run: Seq<char>, rest: Seq<char>)
    requires
        run.len() > 0,
        is_letter(run[0]),
        forall|i: int| 0 <= i < run.len() ==> is_word_char(#[trigger] run[i]),
        breaks(rest),
    ensures
        lex(run + rest) == seq![word_token(run)] + lex(rest),
{
    let s = run + rest;
    lemma_word_run_of(run, rest);
    assert(s[0] == run[0]);
    assert(s.take(run.len() as int) == run);
    assert(s.skip(run.len() as int) == rest);
}

/// A symbol is read as one token, and what follows it on its own.
proof fn lemma_lex_symbol(mark: char, rest: Seq<char>)
    requires
        !is_space(mark),
        !is_digit(mark),
        !is_letter(mark),
    ensures
        lex(seq![mark] + rest) == seq![symbol(mark)] + lex(rest),
{
    let s = seq![mark] + rest;
    assert(s[0] == mark);
    assert(s.skip(1) == rest);
}

/// White space is skipped.
proof fn lemma_lex_space(blank: char, rest: Seq<char>)
    requires
        is_space(blank),
    ensures
        lex(seq![blank] + rest) == lex(rest),
{
    let s = seq![blank] + rest;
    assert(s[0] == blank);
    assert(s.drop_first() == rest);
}

/// The digits of a number are read as that number.
proof fn lemma_lex_digits(n: nat, width: nat, rest: Seq<char>)
    requires
        n <= u64::MAX,
        rest.len() == 0 || !is_digit(rest[0]),
    ensures
        lex(padded(n, width) + rest) == seq![number_of(n, padded(n, width))] + lex(rest),
        lex(digits(n) + rest) == seq![number_of(n, digits(n))] + lex(rest),
{
    lemma_padded(n, width);
    lemma_digits(n);
    lemma_lex_number(padded(n, width), rest);
    lemma_lex_number(digits(n), rest);
}

/// The literal form of a date is read as its five tokens.
proof fn lemma_lex_date(date: Date, rest: Seq<char>)
    requires
        breaks(rest),
    ensures
        lex(date.text() + rest) == date_tokens(date) + lex(rest),
{
    let y = padded(date.year as nat, 4);
    let m = padded(date.month as nat, 2);
    let d = padded(date.day as nat, 2);
    let dash = seq!['-'];
    let after_day = rest;
    let after_dash2 = d + after_day;
    let after_month = dash + after_dash2;
    let after_dash1 = m + after_month;
    let after_year = dash + after_dash1;
    assert(date.text() + rest == y + after_year);
    lemma_padded(date.month as nat, 2);
    lemma_padded(date.day as nat, 2);
    lemma_lex_digits(date.year as nat, 4, after_year);
    lemma_lex_symbol('-', after_dash1);
    lemma_lex_digits(date.month as nat, 2, after_month);
    lemma_lex_symbol('-', after_dash2);
    lemma_lex_digits(date.day as nat, 2, after_day);
    assert(lex(date.text() + rest) == date_tokens(date) + lex(rest));
}

/// A release number is read as its tokens.
proof fn lemma_lex_release(release: ReleaseSelector, rest: Seq<char>)
    requires
        breaks(rest),
    ensures
        lex(release.text() + rest) == release_tokens(release) + lex(rest),
{
    reveal_strlit("1.");
    reveal_strlit(".");
    let one = seq!['1'];
    let dot = seq!['.'];
    let minor = digits(release.minor as nat);
    assert("1."@ == one + dot);
    assert("."@ == dot);
    assert(one.drop_last() == Seq::<char>::empty());
    assert(decimal(one.drop_last()) == 0);
    assert(decimal(one) == 1);
    assert(number_token(one) == Token::Number { value: 1, width: 1 });
    lemma_digits(release.minor as nat);
    match release.patch {
        Some(patch) => {
            let last = digits(patch as nat);
            lemma_digits(patch as nat);
            let after_minor = dot + (last + rest);
            assert(release.text() + rest == one + (dot + (minor + after_minor)));
            lemma_lex_number(one, dot + (minor + after_minor));
            lemma_lex_symbol('.', minor + after_minor);
            lemma_lex_digits(release.minor as nat, 0, after_minor);
            lemma_lex_symbol('.', last + rest);
            lemma_lex_digits(patch as nat, 0, rest);
            assert(lex(release.text() + rest) == release_tokens(release) + lex(rest));
        },
        None => {
            assert(release.text() + rest == one + (dot + (minor + rest)));
            lemma_lex_number(one, dot + (minor + rest));
            lemma_lex_symbol('.', minor + rest);
            lemma_lex_digits(release.minor as nat, 0, rest);
            assert(lex(release.text() + rest) == release_tokens(release) + lex(rest));
        },
    }
}

/// A bound is read as its tokens.
proof fn lemma_lex_bound(bound: Bound, rest: Seq<char>)
    requires
        breaks(rest),
    ensures
        lex(bound.text() + rest) == bound_tokens(bound) + lex(rest),
{
    match bound {
        Bound::Nightly(date) => lemma_lex_date(date, rest),
        Bound::Stable(release) => lemma_lex_release(release, rest),
    }
}

/// How a keyword is spelled.
pub open spec fn keyword_text(word: Keyword) -> Seq<char> {
    match word {
        Keyword::Stable => "stable"@,
        Keyword::Beta => "beta"@,
        Keyword::Nightly => "nightly"@,
        Keyword::Since => "since"@,
        Keyword::Before => "before"@,
        Keyword::Not => "not"@,
        Keyword::Any => "any"@,
        Keyword::All => "all"@,
        Keyword::MinVer => "minver"@,
    }
}

/// A keyword is a word, and the word is that keyword.
proof fn lemma_keyword(word: Keyword)
    ensures
        keyword_text(word).len() > 0,
        is_letter(keyword_text(word)[0]),
        forall|i: int|
            0 <= i < keyword_text(word).len() ==> is_word_char(#[trigger] keyword_text(word)[i]),
        word_token(keyword_text(word)) == Token::Word(word),
{
    reveal_strlit("stable");
    reveal_strlit("beta");
    reveal_strlit("nightly");
    reveal_strlit("since");
    reveal_strlit("before");
    reveal_strlit("not");
    reveal_strlit("any");
    reveal_strlit("all");
    reveal_strlit("minver");
    assert("stable"@.len() == 6 && "stable"@[0] == 's');
    assert("beta"@.len() == 4 && "beta"@[0] == 'b');
    assert("nightly"@.len() == 7 && "nightly"@[0] == 'n');
    assert("since"@.len() == 5 && "since"@[0] == 's');
    assert("before"@.len() == 6 && "before"@[0] == 'b');
    assert("not"@.len() == 3 && "not"@[0] == 'n');
    assert("any"@.len() == 3 && "any"@[0] == 'a' && "any"@[1] == 'n');
    assert("all"@.len() == 3 && "all"@[0] == 'a' && "all"@[1] == 'l');
    assert("minver"@.len() == 6 && "minver"@[0] == 'm');
}

/// A keyword with an argument in parentheses is read as the keyword, the
/// parentheses and what the argument is read as.
proof fn lemma_lex_applied(
    word: Keyword,
    argument: Seq<char>,
    tokens: Seq<Token>,
    rest: Seq<char>,
)
    requires
        lex(argument + (seq![')'] + rest)) == tokens + lex(seq![')'] + rest),
    ensures
        lex(keyword_text(word) + seq!['('] + argument + seq![')'] + rest) == applied(word, tokens)
            + lex(rest),
{
    let w = keyword_text(word);
    let closing = seq![')'] + rest;
    let opened = argument + closing;
    lemma_keyword(word);
    assert(w + seq!['('] + argument + seq![')'] + rest == w + (seq!['('] + opened));
    lemma_lex_word(w, seq!['('] + opened);
    lemma_lex_symbol('(', opened);
    lemma_lex_symbol(')', rest);
    assert(seq![Token::Word(word)] + (seq![Token::Open] + (tokens + (seq![Token::Close] + lex(
        rest,
    )))) == applied(word, tokens) + lex(rest));
}

/// The text of a selector with an argument: the keyword, and the argument
/// in parentheses.
proof fn lemma_texts_applied()
    ensures
        "nightly("@ == keyword_text(Keyword::Nightly) + seq!['('],
        "since("@ == keyword_text(Keyword::Since) + seq!['('],
        "before("@ == keyword_text(Keyword::Before) + seq!['('],
        "stable("@ == keyword_text(Keyword::Stable) + seq!['('],
        "not("@ == keyword_text(Keyword::Not) + seq!['('],
        "any("@ == keyword_text(Keyword::Any) + seq!['('],
        "all("@ == keyword_text(Keyword::All) + seq!['('],
        "minver("@ == keyword_text(Keyword::MinVer) + seq!['('],
        ")"@ == seq![')'],
        ", "@ == seq![',', ' '],
{
    reveal_strlit("stable");
    reveal_strlit("nightly");
    reveal_strlit("since");
    reveal_strlit("before");
    reveal_strlit("not");
    reveal_strlit("any");
    reveal_strlit("all");
    reveal_strlit("minver");
    reveal_strlit("stable(");
    reveal_strlit("nightly(");
    reveal_strlit("since(");
    reveal_strlit("before(");
    reveal_strlit("not(");
    reveal_strlit("any(");
    reveal_strlit("all(");
    reveal_strlit("minver(");
    reveal_strlit(")");
    reveal_strlit(", ");
    assert("nightly("@ =~= "nightly"@ + seq!['(']);
    assert("since("@ =~= "since"@ + seq!['(']);
    assert("before("@ =~= "before"@ + seq!['(']);
    assert("stable("@ =~= "stable"@ + seq!['(']);
    assert("not("@ =~= "not"@ + seq!['(']);
    assert("any("@ =~= "any"@ + seq!['(']);
    assert("all("@ =~= "all"@ + seq!['(']);
    assert("minver("@ =~= "minver"@ + seq!['(']);
    assert(")"@ =~= seq![')']);
    assert(", "@ =~= seq![',', ' ']);
}

/// A selector as it is written, followed by something that is no part of a
/// word, is read as the tokens of the selector, and what follows on its own.
pub proof fn lemma_lex_selector(selector: Selector, rest: Seq<char>)
    requires
        breaks(rest),
    ensures
        lex(selector.text() + rest) == selector.tokens() + lex(rest),
    decreases selector, 0nat,
{
    lemma_texts_applied();
    let closing = seq![')'] + rest;
    match selector {
        Selector::Stable => {
            lemma_keyword(Keyword::Stable);
            lemma_lex_word(keyword_text(Keyword::Stable), rest);
        },
        Selector::Beta => {
            lemma_keyword(Keyword::Beta);
            lemma_lex_word(keyword_text(Keyword::Beta), rest);
        },
        Selector::Nightly => {
            lemma_keyword(Keyword::Nightly);
            lemma_lex_word(keyword_text(Keyword::Nightly), rest);
        },
        Selector::NightlyDate(date) => {
            lemma_lex_date(date, closing);
            lemma_lex_applied(Keyword::Nightly, date.text(), date_tokens(date), rest);
        },
        Selector::Since(bound) => {
            lemma_lex_bound(bound, closing);
            lemma_lex_applied(Keyword::Since, bound.text(), bound_tokens(bound), rest);
        },
        Selector::Before(bound) => {
            lemma_lex_bound(bound, closing);
            lemma_lex_applied(Keyword::Before, bound.text(), bound_tokens(bound), rest);
        },
        Selector::MinVer(bound) => {
            lemma_lex_bound(bound, closing);
            lemma_lex_applied(Keyword::MinVer, bound.text(), bound_tokens(bound), rest);
        },
        Selector::ReleaseIs(release) => {
            lemma_lex_release(release, closing);
            lemma_lex_applied(Keyword::Stable, release.text(), release_tokens(release), rest);
        },
        Selector::Not(inner) => {
            lemma_lex_selector(*inner, closing);
            lemma_lex_applied(Keyword::Not, inner.text(), inner.tokens(), rest);
        },
        Selector::Any(list) => {
            lemma_lex_list(list, list.len(), closing);
            lemma_lex_applied(
                Keyword::Any,
                Selector::texts(list, list.len()),
                Selector::list_tokens(list, list.len()),
                rest,
            );
        },
        Selector::All(list) => {
            lemma_lex_list(list, list.len(), closing);
            lemma_lex_applied(
                Keyword::All,
                Selector::texts(list, list.len()),
                Selector::list_tokens(list, list.len()),
                rest,
            );
        },
    }
}

/// The first selectors of a list as they are written are read as their
/// tokens.
pub proof fn lemma_lex_list(list: Seq<Selector>, count: nat, rest: Seq<char>)
    requires
        count <= list.len(),
        breaks(rest),
    ensures
        lex(Selector::texts(list, count) + rest) == Selector::list_tokens(list, count) + lex(rest),
    decreases list, count,
{
    lemma_texts_applied();
    if count == 0 {
        assert(Seq::<char>::empty() + rest == rest);
        assert(Seq::<Token>::empty() + lex(rest) == lex(rest));
    } else if count == 1 {
        lemma_lex_selector(list[0], rest);
    } else {
        let last = list[count - 1];
        let front = Selector::texts(list, (count - 1) as nat);
        let after_blank = last.text() + rest;
        let after_comma = seq![' '] + after_blank;
        let after_front = seq![','] + after_comma;
        assert(Selector::texts(list, count) + rest == front + after_front);
        lemma_lex_list(list, (count - 1) as nat, after_front);
        lemma_lex_symbol(',', after_comma);
        lemma_lex_space(' ', after_blank);
        lemma_lex_selector(last, rest);
        assert(Selector::list_tokens(list, (count - 1) as nat) + (seq![Token::Comma] + (
        last.tokens() + lex(rest))) == Selector::list_tokens(list, count) + lex(rest));
    }
}

/// The tokens `part` stand in `tokens` from index `i` on.
pub open spec fn stands_at(tokens: Seq<Token>, i: int, part: Seq<Token>) -> bool {
    0 <= i && i + part.len() <= tokens.len() && tokens.subrange(i, i + part.len()) == part
}

/// A token of a part that stands in the tokens is a token of the tokens.
proof fn lemma_token_of_part(tokens: Seq<Token>, i: int, part: Seq<Token>, k: int)
    requires
        stands_at(tokens, i, part),
        0 <= k < part.len(),
    ensures
        token_at(tokens, i + k) == Some(part[k]),
{
    assert(tokens.subrange(i, i + part.len())[k] == tokens[i + k]);
}

/// A part of a part that stands in the tokens stands in the tokens.
proof fn lemma_part_of_part(
    tokens: Seq<Token>,
    i: int,
    whole: Seq<Token>,
    j: int,
    part: Seq<Token>,
)
    requires
        stands_at(tokens, i, whole),
        stands_at(whole, j, part),
    ensures
        stands_at(tokens, i + j, part),
{
    assert(tokens.subrange(i + j, i + j + part.len()) == tokens.subrange(
        i,
        i + whole.len(),
    ).subrange(j, j + part.len()));
}

/// The tokens of a date are read as the date, if it is within the limits.
proof fn lemma_date_at(tokens: Seq<Token>, i: int, date: Date)
    requires
        stands_at(tokens, i, date_tokens(date)),
        date.valid(),
    ensures
        date_at(tokens, i) == Some(date),
{
    let part = date_tokens(date);
    lemma_token_of_part(tokens, i, part, 0);
    lemma_token_of_part(tokens, i, part, 1);
    lemma_token_of_part(tokens, i, part, 2);
    lemma_token_of_part(tokens, i, part, 3);
    lemma_token_of_part(tokens, i, part, 4);
}

/// The tokens of a release number are read as the release number, unless
/// a `.` follows them.
proof fn lemma_release_at(tokens: Seq<Token>, i: int, release: ReleaseSelector)
    requires
        stands_at(tokens, i, release_tokens(release)),
        token_at(tokens, i + release_tokens(release).len()) != Some(Token::Dot),
    ensures
        release_at(tokens, i) == Some((release, i + release_tokens(release).len())),
{
    let part = release_tokens(release);
    lemma_token_of_part(tokens, i, part, 0);
    lemma_token_of_part(tokens, i, part, 1);
    lemma_token_of_part(tokens, i, part, 2);
    match release.patch {
        Some(patch) => {
            lemma_token_of_part(tokens, i, part, 3);
            lemma_token_of_part(tokens, i, part, 4);
        },
        None => {},
    }
}

/// The tokens of a bound in parentheses after a keyword are read as the
/// bound.
proof fn lemma_argument_at(tokens: Seq<Token>, i: int, word: Keyword, bound: Bound)
    requires
        stands_at(tokens, i, applied(word, bound_tokens(bound))),
        bound is Nightly ==> bound->Nightly_0.valid(),
    ensures
        token_at(tokens, i) == Some(Token::Word(word)),
        argument_at(tokens, i + 1) == Ok::<(Bound, int), SyntaxError>(
            (bound, i + applied(word, bound_tokens(bound)).len()),
        ),
{
    let inner = bound_tokens(bound);
    let part = applied(word, inner);
    lemma_token_of_part(tokens, i, part, 0);
    lemma_token_of_part(tokens, i, part, 1);
    lemma_token_of_part(tokens, i, part, inner.len() as int + 2);
    assert(stands_at(part, 2, inner)) by {
        assert(part.subrange(2, inner.len() as int + 2) == inner);
    }
    lemma_part_of_part(tokens, i, part, 2, inner);
    lemma_token_of_part(tokens, i + 2, inner, 1);
    match bound {
        Bound::Nightly(date) => {
            lemma_date_at(tokens, i + 2, date);
        },
        Bound::Stable(release) => {
            lemma_release_at(tokens, i + 2, release);
        },
    }
}

/// The tokens of a selector begin with a keyword.
proof fn lemma_tokens_begin(selector: Selector)
    ensures
        selector.tokens().len() >= 1,
        selector.tokens()[0] is Word,
{
}

/// The tokens of the first selectors of a list begin the tokens of more of
/// them, and a comma follows them there.
proof fn lemma_list_tokens_prefix(list: Seq<Selector>, fewer: nat, more: nat)
    requires
        1 <= fewer <= more <= list.len(),
    ensures
        stands_at(Selector::list_tokens(list, more), 0, Selector::list_tokens(list, fewer)),
        fewer < more ==> token_at(
            Selector::list_tokens(list, more),
            Selector::list_tokens(list, fewer).len() as int,
        ) == Some(Token::Comma),
    decreases more,
{
    let short = Selector::list_tokens(list, fewer);
    let long = Selector::list_tokens(list, more);
    if fewer == more {
        assert(long.subrange(0, long.len() as int) == long);
    } else {
        let before = Selector::list_tokens(list, (more - 1) as nat);
        lemma_list_tokens_prefix(list, fewer, (more - 1) as nat);
        assert(long == before + seq![Token::Comma] + list[more - 1].tokens());
        assert(long.subrange(0, short.len() as int) == before.subrange(0, short.len() as int));
        if fewer == more - 1 {
            assert(long[before.len() as int] == Token::Comma);
        } else {
            assert(long[short.len() as int] == before[short.len() as int]);
        }
    }
}

/// Where in the tokens of a list the selector at index `k` begins.
pub open spec fn offset(list: Seq<Selector>, k: nat) -> int {
    if k == 0 {
        0
    } else {
        Selector::list_tokens(list, k).len() as int + 1
    }
}

/// The selector at index `k` of a list stands in the tokens of the list at
/// its offset, and a comma follows it unless it is the last.
proof fn lemma_list_tokens_item(list: Seq<Selector>, k: nat)
    requires
        k < list.len(),
    ensures
        stands_at(
            Selector::list_tokens(list, list.len()),
            offset(list, k),
            list[k as int].tokens(),
        ),
        offset(list, k) + list[k as int].tokens().len() == Selector::list_tokens(
            list,
            k + 1,
        ).len(),
        k + 1 < list.len() ==> token_at(
            Selector::list_tokens(list, list.len()),
            offset(list, k) + list[k as int].tokens().len(),
        ) == Some(Token::Comma),
        k + 1 == list.len() ==> offset(list, k) + list[k as int].tokens().len()
            == Selector::list_tokens(list, list.len()).len(),
{
    let all = Selector::list_tokens(list, list.len());
    let upto = Selector::list_tokens(list, k + 1);
    let item = list[k as int].tokens();
    lemma_list_tokens_prefix(list, k + 1, list.len());
    if k == 0 {
        assert(upto == item);
        assert(upto.subrange(0, item.len() as int) == item);
    } else {
        let before = Selector::list_tokens(list, k);
        assert(upto == before + seq![Token::Comma] + item);
        assert(upto.subrange(offset(list, k), offset(list, k) + item.len()) == item);
        assert(stands_at(upto, offset(list, k), item));
    }
    lemma_part_of_part(all, 0, upto, offset(list, k), item);
}

/// The tokens of a selector are read as the selector, unless an opening
/// parenthesis follows them.
pub proof fn lemma_selector_at(selector: Selector, tokens: Seq<Token>, i: int)
    requires
        selector.well_formed(),
        stands_at(tokens, i, selector.tokens()),
        token_at(tokens, i + selector.tokens().len()) != Some(Token::Open),
    ensures
        selector_at(tokens, i) == Ok::<(Selector, int), SyntaxError>(
            (selector, i + selector.tokens().len()),
        ),
    decreases selector, 0nat,
{
    let part = selector.tokens();
    lemma_token_of_part(tokens, i, part, 0);
    match selector {
        Selector::Stable | Selector::Beta | Selector::Nightly => {},
        Selector::Since(bound) => {
            lemma_argument_at(tokens, i, Keyword::Since, bound);
        },
        Selector::Before(bound) => {
            lemma_argument_at(tokens, i, Keyword::Before, bound);
        },
        Selector::MinVer(bound) => {
            lemma_argument_at(tokens, i, Keyword::MinVer, bound);
        },
        Selector::NightlyDate(date) => {
            let inner = date_tokens(date);
            lemma_token_of_part(tokens, i, part, 1);
            lemma_token_of_part(tokens, i, part, 7);
            assert(stands_at(part, 2, inner)) by {
                assert(part.subrange(2, inner.len() as int + 2) == inner);
            }
            lemma_part_of_part(tokens, i, part, 2, inner);
            lemma_date_at(tokens, i + 2, date);
        },
        Selector::ReleaseIs(release) => {
            let inner = release_tokens(release);
            lemma_token_of_part(tokens, i, part, 1);
            lemma_token_of_part(tokens, i, part, inner.len() as int + 2);
            assert(stands_at(part, 2, inner)) by {
                assert(part.subrange(2, inner.len() as int + 2) == inner);
            }
            lemma_part_of_part(tokens, i, part, 2, inner);
            lemma_release_at(tokens, i + 2, release);
        },
        Selector::Not(inner) => {
            let within = inner.tokens();
            lemma_token_of_part(tokens, i, part, 1);
            lemma_token_of_part(tokens, i, part, within.len() as int + 2);
            assert(stands_at(part, 2, within)) by {
                assert(part.subrange(2, within.len() as int + 2) == within);
            }
            lemma_part_of_part(tokens, i, part, 2, within);
            lemma_selector_at(*inner, tokens, i + 2);
        },
        Selector::Any(list) => {
            let within = Selector::list_tokens(list, list.len());
            lemma_token_of_part(tokens, i, part, 1);
            lemma_token_of_part(tokens, i, part, within.len() as int + 2);
            assert(stands_at(part, 2, within)) by {
                assert(part.subrange(2, within.len() as int + 2) == within);
            }
            lemma_part_of_part(tokens, i, part, 2, within);
            lemma_list_at(list, tokens, i + 2, 0);
            assert(list.take(0) == Seq::<Selector>::empty());
        },
        Selector::All(list) => {
            let within = Selector::list_tokens(list, list.len());
            lemma_token_of_part(tokens, i, part, 1);
            lemma_token_of_part(tokens, i, part, within.len() as int + 2);
            assert(stands_at(part, 2, within)) by {
                assert(part.subrange(2, within.len() as int + 2) == within);
            }
            lemma_part_of_part(tokens, i, part, 2, within);
            lemma_list_at(list, tokens, i + 2, 0);
            assert(list.take(0) == Seq::<Selector>::empty());
        },
    }
}

/// The tokens of a list and the closing parenthesis after them are read,
/// from the selector at index `k` on, as the rest of the list.
pub proof fn lemma_list_at(list: Seq<Selector>, tokens: Seq<Token>, start: int, k: nat)
    requires
        forall|i: int| 0 <= i < list.len() ==> (#[trigger] list[i]).well_formed(),
        stands_at(tokens, start, Selector::list_tokens(list, list.len())),
        token_at(tokens, start + Selector::list_tokens(list, list.len()).len()) == Some(
            Token::Close,
        ),
        k < list.len() || k == 0,
    ensures
        list_at(tokens, start + offset(list, k), list.take(k as int)) == Ok::<
            (Seq<Selector>, int),
            SyntaxError,
        >((list, start + Selector::list_tokens(list, list.len()).len() + 1)),
    decreases list, list.len() - k,
{
    let all = Selector::list_tokens(list, list.len());
    if list.len() == 0 {
        assert(list.take(0) == list);
    } else {
        let item = list[k as int];
        let at = start + offset(list, k);
        let next = at + item.tokens().len();
        lemma_list_tokens_item(list, k);
        lemma_tokens_begin(item);
        lemma_part_of_part(tokens, start, all, offset(list, k), item.tokens());
        lemma_token_of_part(tokens, at, item.tokens(), 0);
        if k + 1 < list.len() {
            lemma_token_of_part(tokens, start, all, offset(list, k) + item.tokens().len());
        }
        lemma_selector_at(item, tokens, at);
        assert(list.take(k as int).push(item) == list.take(k as int + 1));
        if k + 1 == list.len() {
            assert(list.take(k as int + 1) == list);
        } else {
            lemma_list_at(list, tokens, start, k + 1);
        }
    }
}

/// A selector whose dates are within the limits is read from what it is
/// written as.
pub proof fn lemma_selector_round_trip(selector: Selector)
    requires
        selector.well_formed(),
    ensures
        selector_in(selector.text()) == Ok::<Selector, SyntaxError>(selector),
{
    let none = Seq::<char>::empty();
    let tokens = selector.tokens();
    lemma_lex_selector(selector, none);
    assert(selector.text() + none == selector.text());
    assert(lex(none) == Seq::<Token>::empty());
    assert(tokens + Seq::<Token>::empty() == tokens);
    assert(tokens.subrange(0, tokens.len() as int) == tokens);
    lemma_selector_at(selector, tokens, 0);
}

/// Every list of selectors is well formed that has well formed selectors
/// only.
pub open spec fn all_well_formed(list: Seq<Selector>) -> bool {
    forall|i: int| 0 <= i < list.len() ==> (#[trigger] list[i]).well_formed()
}

/// What is read from tokens is well formed: every date in it is within the
/// limits of a date.
pub proof fn lemma_read_well_formed(tokens: Seq<Token>, i: int, found: Seq<Selector>)
    requires
        0 <= i,
        all_well_formed(found),
    ensures
        match selector_at(tokens, i) {
            Ok((selector, _)) => selector.well_formed(),
            Err(_) => true,
        },
        match list_at(tokens, i, found) {
            Ok((list, _)) => all_well_formed(list),
            Err(_) => true,
        },
    decreases tokens.len() - i,
{
    if i < tokens.len() {
        match tokens[i] {
            Token::Word(Keyword::Not) => {
                if token_at(tokens, i + 1) == Some(Token::Open) {
                    lemma_read_well_formed(tokens, i + 2, found);
                }
            },
            Token::Word(Keyword::Any) | Token::Word(Keyword::All) => {
                if token_at(tokens, i + 1) == Some(Token::Open) {
                    lemma_read_well_formed(tokens, i + 2, Seq::empty());
                }
            },
            _ => {},
        }
        match selector_at(tokens, i) {
            Ok((selector, next)) => {
                lemma_selector_advances(tokens, i, found);
                assert forall|j: int| 0 <= j < found.push(selector).len() implies (
                #[trigger] found.push(selector)[j]).well_formed() by {
                    if j < found.len() {
                        assert(found.push(selector)[j] == found[j]);
                    }
                }
                if token_at(tokens, next) == Some(Token::Comma) {
                    lemma_read_well_formed(tokens, next + 1, found.push(selector));
                }
            },
            Err(_) => {},
        }
    }
}

/// A selector that was read from a text is read again from what it is
/// written as.
pub proof fn lemma_reread(text: Seq<char>)
    ensures
        match selector_in(text) {
            Ok(selector) => selector_in(selector.text()) == Ok::<Selector, SyntaxError>(selector),
            Err(_) => true,
        },
{
    lemma_read_well_formed(lex(text), 0, Seq::empty());
    match selector_in(text) {
        Ok(selector) => {
            lemma_selector_round_trip(selector);
        },
        Err(_) => {},
    }
}

} // verus!
