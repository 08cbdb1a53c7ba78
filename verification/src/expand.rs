//! What the macros make of the code they are attached to.
//!
//! A selector macro keeps the code where its selector holds and drops it
//! where it does not. `attr` leaves the code alone where its selector does
//! not hold, and where it holds adds attributes to the code or makes the
//! function in it `const`.

use crate::attr::{arguments_of, Addition, Args, Then};
use crate::bound::Bound;
use crate::constfn::{insert_const, with_const};
use crate::expr::{Checker, EvalError, Expr, Failure};
use crate::grammar::{selector_of, SyntaxError};
use crate::lexer::{tokens_of_trees, trees_tokens};
use crate::tokens::{Delimiter, TokenTree, Tree};
use crate::version::Version;
use vstd::prelude::*;

verus! {

/// Why a macro could not do its work.
#[derive(Debug, PartialEq, Eq)]
pub enum MacroError {
    /// Its arguments are not what the macro takes.
    Syntax(SyntaxError),
    /// Its selector was not answered.
    Eval(EvalError),
    /// `const` was asked for where there is no function.
    Misplaced,
}

/// Why a macro could not do its work, as a mathematical value.
pub enum Fault {
    Syntax(SyntaxError),
    Eval(Failure),
    Misplaced,
}

impl View for MacroError {
    type V = Fault;

    open spec fn view(&self) -> Fault {
        match self {
            MacroError::Syntax(error) => Fault::Syntax(*error),
            MacroError::Eval(error) => Fault::Eval(error@),
            MacroError::Misplaced => Fault::Misplaced,
        }
    }
}

/// What a macro leads to: the code it leaves, or why it failed, and the
/// minimum version in force afterwards.
pub struct Expansion {
    pub result: Result<Seq<Tree>, Fault>,
    pub minimum: Option<Bound>,
}

/// The result of a macro, as a mathematical value.
pub open spec fn shown(out: Result<Vec<TokenTree>, MacroError>) -> Result<Seq<Tree>, Fault> {
    match out {
        Ok(tokens) => Ok(TokenTree::models(tokens@)),
        Err(error) => Err(error@),
    }
}

/// The tokens of the selector that the macro named `name` stands for with
/// the arguments `args`: the name alone, or the name and the arguments in
/// parentheses.
pub open spec fn call(name: Seq<char>, args: Seq<Tree>) -> Seq<Tree> {
    if args.len() == 0 {
        seq![Tree::Ident(name)]
    } else {
        seq![Tree::Ident(name), Tree::Group(Delimiter::Parenthesis, args)]
    }
}

/// The code with the attributes `attributes` added: `#[cfg_attr(all(),
/// attributes)]` in front of the code.
pub open spec fn attached(attributes: Seq<Tree>, input: Seq<Tree>) -> Seq<Tree> {
    seq![
        Tree::Punct('#', false),
        Tree::Group(
            Delimiter::Bracket,
            seq![
                Tree::Ident("cfg_attr"@),
                Tree::Group(
                    Delimiter::Parenthesis,
                    seq![
                        Tree::Ident("all"@),
                        Tree::Group(Delimiter::Parenthesis, Seq::empty()),
                        Tree::Punct(',', false),
                    ] + attributes,
                ),
            ],
        ),
    ] + input
}

/// What the selector macro `name` with the arguments `args` makes of the
/// code `input`, for the toolchain `rustc` and with `minimum` in force: the
/// code where the selector holds, nothing where it does not.
pub open spec fn gated(
    name: Seq<char>,
    args: Seq<Tree>,
    input: Seq<Tree>,
    rustc: Version,
    minimum: Option<Bound>,
) -> Expansion {
    match selector_of(trees_tokens(call(name, args))) {
        Err(error) => Expansion { result: Err(Fault::Syntax(error)), minimum },
        Ok(selector) => {
            let outcome = selector.outcome(rustc, minimum);
            Expansion {
                result: match outcome.result {
                    Ok(true) => Ok(input),
                    Ok(false) => Ok(Seq::empty()),
                    Err(failure) => Err(Fault::Eval(failure)),
                },
                minimum: outcome.minimum,
            }
        },
    }
}

/// What `attr` with the arguments `args` makes of the code `input`, for the
/// toolchain `rustc` and with `minimum` in force: the code as it is where
/// the selector does not hold; where it holds, the code with the attributes
/// added, or with its first function made `const`.
pub open spec fn attributed(
    args: Seq<Tree>,
    input: Seq<Tree>,
    rustc: Version,
    minimum: Option<Bound>,
) -> Expansion {
    match arguments_of(args) {
        Err(error) => Expansion { result: Err(Fault::Syntax(error)), minimum },
        Ok(arguments) => {
            let outcome = arguments.condition.outcome(rustc, minimum);
            Expansion {
                result: match outcome.result {
                    Err(failure) => Err(Fault::Eval(failure)),
                    Ok(false) => Ok(input),
                    Ok(true) => match arguments.extra {
                        Addition::Attribute(attributes) => Ok(attached(attributes, input)),
                        Addition::Const => match with_const(input) {
                            Some(code) => Ok(code),
                            None => Err(Fault::Misplaced),
                        },
                    },
                },
                minimum: outcome.minimum,
            }
        },
    }
}

/// The models of a list of one token tree.
proof fn lemma_models_one(a: TokenTree)
    ensures
        TokenTree::models(seq![a]) == seq![a@],
{
    assert(TokenTree::models(seq![a]) =~= seq![a@]);
}

/// The models of two lists, one after the other.
pub proof fn lemma_models_concat(a: Seq<TokenTree>, b: Seq<TokenTree>)
    ensures
        TokenTree::models(a + b) == TokenTree::models(a) + TokenTree::models(b),
{
    assert(TokenTree::models(a + b) =~= TokenTree::models(a) + TokenTree::models(b));
}

/// The models of a list with one more token tree.
pub proof fn lemma_models_push(a: Seq<TokenTree>, next: TokenTree)
    ensures
        TokenTree::models(a.push(next)) == TokenTree::models(a).push(next@),
{
    assert(TokenTree::models(a.push(next)) =~= TokenTree::models(a).push(next@));
}

impl Expr {
    /// Reads a selector from token trees.
    pub fn from_trees(list: &Vec<TokenTree>) -> (out: Result<Expr, SyntaxError>)
        ensures
            match selector_of(trees_tokens(TokenTree::models(list@))) {
                Ok(selector) => out is Ok && out->Ok_0@ == selector,
                Err(error) => out == Err::<Expr, SyntaxError>(error),
            },
    {
        let tokens = tokens_of_trees(list);
        Expr::from_tokens(&tokens)
    }
}

/// The tokens of the selector that the macro `name` stands for with the
/// arguments `args`.
fn call_of(name: &str, args: Vec<TokenTree>) -> (out: Vec<TokenTree>)
    ensures
        TokenTree::models(out@) == call(name@, TokenTree::models(args@)),
{
    let mut out: Vec<TokenTree> = Vec::new();
    let word = TokenTree::ident(name);
    out.push(word);
    proof {
        lemma_models_one(word);
        assert(out@ == seq![word]);
    }
    if args.len() > 0 {
        let group = TokenTree::Group(Delimiter::Parenthesis, args);
        proof {
            lemma_models_push(out@, group);
        }
        out.push(group);
        assert(TokenTree::models(out@) == seq![word@, group@]);
    }
    out
}

/// The code `input` with the attributes `attributes` added.
fn attach(attributes: Vec<TokenTree>, input: Vec<TokenTree>) -> (out: Vec<TokenTree>)
    ensures
        TokenTree::models(out@) == attached(
            TokenTree::models(attributes@),
            TokenTree::models(input@),
        ),
{
    let mut attributes = attributes;
    let mut input = input;
    let ghost added = TokenTree::models(attributes@);
    let ghost code = TokenTree::models(input@);

    let mut inner: Vec<TokenTree> = Vec::new();
    let all = TokenTree::ident("all");
    let none = TokenTree::Group(Delimiter::Parenthesis, Vec::new());
    let comma = TokenTree::Punct(',', false);
    proof {
        assert(TokenTree::models(Seq::<TokenTree>::empty()) =~= Seq::<Tree>::empty());
        lemma_models_one(all);
        lemma_models_push(seq![all], none);
        lemma_models_push(seq![all, none], comma);
        lemma_models_concat(seq![all, none, comma], attributes@);
        assert(seq![all].push(none) == seq![all, none]);
        assert(seq![all, none].push(comma) == seq![all, none, comma]);
    }
    inner.push(all);
    assert(inner@ == seq![all]);
    inner.push(none);
    inner.push(comma);
    inner.append(&mut attributes);
    assert(TokenTree::models(inner@) == seq![
        Tree::Ident("all"@),
        Tree::Group(Delimiter::Parenthesis, Seq::empty()),
        Tree::Punct(',', false),
    ] + added);

    let mut outer: Vec<TokenTree> = Vec::new();
    let word = TokenTree::ident("cfg_attr");
    let arguments = TokenTree::Group(Delimiter::Parenthesis, inner);
    proof {
        lemma_models_one(word);
        lemma_models_push(seq![word], arguments);
        assert(seq![word].push(arguments) == seq![word, arguments]);
    }
    outer.push(word);
    assert(outer@ == seq![word]);
    outer.push(arguments);
    assert(TokenTree::models(outer@) == seq![word@, arguments@]);

    let mut out: Vec<TokenTree> = Vec::new();
    let hash = TokenTree::Punct('#', false);
    let attribute = TokenTree::Group(Delimiter::Bracket, outer);
    proof {
        lemma_models_one(hash);
        lemma_models_push(seq![hash], attribute);
        lemma_models_concat(seq![hash, attribute], input@);
        assert(seq![hash].push(attribute) == seq![hash, attribute]);
    }
    out.push(hash);
    assert(out@ == seq![hash]);
    out.push(attribute);
    out.append(&mut input);
    assert(TokenTree::models(out@) == seq![hash@, attribute@] + code);
    out
}

/// Does the work of the selector macro `name`: keeps the code `input` where
/// the selector that `name` and `args` spell holds of `rustc`, and drops it
/// where the selector does not hold.
pub fn cfg(
    name: &str,
    args: Vec<TokenTree>,
    input: Vec<TokenTree>,
    rustc: Version,
    checker: &mut Checker,
) -> (out: Result<Vec<TokenTree>, MacroError>)
    ensures
        shown(out) == gated(
            name@,
            TokenTree::models(args@),
            TokenTree::models(input@),
            rustc,
            old(checker)@,
        ).result,
        final(checker)@ == gated(
            name@,
            TokenTree::models(args@),
            TokenTree::models(input@),
            rustc,
            old(checker)@,
        ).minimum,
{
    let full = call_of(name, args);
    let expr = match Expr::from_trees(&full) {
        Ok(expr) => expr,
        Err(error) => {
            return Err(MacroError::Syntax(error));
        },
    };
    match expr.eval(rustc, checker) {
        Ok(true) => Ok(input),
        Ok(false) => {
            let nothing: Vec<TokenTree> = Vec::new();
            assert(TokenTree::models(nothing@) =~= Seq::<Tree>::empty());
            Ok(nothing)
        },
        Err(error) => Err(MacroError::Eval(error)),
    }
}

/// Does the work of `attr`: where the selector in `args` holds of `rustc`,
/// adds to the code `input` what `args` names after the selector.
pub fn attr(args: Vec<TokenTree>, input: Vec<TokenTree>, rustc: Version, checker: &mut Checker) -> (out:
    Result<Vec<TokenTree>, MacroError>)
    ensures
        shown(out) == attributed(
            TokenTree::models(args@),
            TokenTree::models(input@),
            rustc,
            old(checker)@,
        ).result,
        final(checker)@ == attributed(
            TokenTree::models(args@),
            TokenTree::models(input@),
            rustc,
            old(checker)@,
        ).minimum,
{
    let args = match Args::from_trees(args) {
        Ok(args) => args,
        Err(error) => {
            return Err(MacroError::Syntax(error));
        },
    };
    match args.condition.eval(rustc, checker) {
        Err(error) => {
            return Err(MacroError::Eval(error));
        },
        Ok(false) => {
            return Ok(input);
        },
        Ok(true) => {},
    }
    match args.extra {
        Then::Attribute(attributes) => Ok(attach(attributes, input)),
        Then::Const => match insert_const(input) {
            Ok(code) => Ok(code),
            Err(_) => Err(MacroError::Misplaced),
        },
    }
}

} // verus!
