//! The arguments of the `attr` macro: a selector, a comma, and what to add
//! to the code where the selector holds.

use crate::expr::{Expr, Selector};
use crate::grammar::{selector_of, wanted, Expected, SyntaxError};
use crate::lexer::{tokens_of_trees, trees_tokens};
use crate::tokens::{TokenTree, Tree};
use vstd::prelude::*;

verus! {

/// What `attr` adds to the code.
#[derive(Debug, PartialEq, Eq)]
pub enum Then {
    /// The keyword `const`, in front of a function.
    Const,
    /// The tokens of one or more attributes.
    Attribute(Vec<TokenTree>),
}

/// The arguments of `attr`.
#[derive(Debug, PartialEq, Eq)]
pub struct Args {
    pub condition: Expr,
    pub extra: Then,
}

/// What `attr` adds to the code, as a mathematical value.
pub enum Addition {
    Const,
    Attribute(Seq<Tree>),
}

/// The arguments of `attr`, as a mathematical value.
pub struct Arguments {
    pub condition: Selector,
    pub extra: Addition,
}

impl View for Then {
    type V = Addition;

    open spec fn view(&self) -> Addition {
        match self {
            Then::Const => Addition::Const,
            Then::Attribute(tokens) => Addition::Attribute(TokenTree::models(tokens@)),
        }
    }
}

impl View for Args {
    type V = Arguments;

    open spec fn view(&self) -> Arguments {
        Arguments { condition: self.condition@, extra: self.extra@ }
    }
}

/// The token is a comma.
pub open spec fn is_comma(tree: Tree) -> bool {
    match tree {
        Tree::Punct(mark, _) => mark == ',',
        _ => false,
    }
}

/// The index of the first comma of `list`, or the length of `list` if it
/// has none. Commas inside groups are not among the tokens of `list`.
pub open spec fn first_comma(list: Seq<Tree>) -> nat
    decreases list.len(),
{
    if list.len() == 0 || is_comma(list[0]) {
        0
    } else {
        1 + first_comma(list.drop_first())
    }
}

/// What the tokens after the comma add. `at` is the index that an error
/// reports. The keyword `const` stands alone, but for a comma after it.
pub open spec fn addition_of(rest: Seq<Tree>, at: int) -> Result<Addition, SyntaxError> {
    if rest.len() == 0 {
        Err(wanted(Expected::Attribute, at))
    } else if rest[0] != Tree::Ident("const"@) {
        Ok(Addition::Attribute(rest))
    } else if rest.len() == 1 || (rest.len() == 2 && is_comma(rest[1])) {
        Ok(Addition::Const)
    } else {
        Err(wanted(Expected::End, at))
    }
}

/// The arguments that the tokens `list` spell: the selector up to the
/// first comma, and what follows the comma. An error after the selector
/// reports the number of the selector's tokens as its index.
pub open spec fn arguments_of(list: Seq<Tree>) -> Result<Arguments, SyntaxError> {
    let k = first_comma(list) as int;
    let tokens = trees_tokens(list.take(k));
    match selector_of(tokens) {
        Err(error) => Err(error),
        Ok(condition) => {
            if k >= list.len() {
                Err(wanted(Expected::Comma, tokens.len() as int))
            } else {
                match addition_of(list.skip(k + 1), tokens.len() as int) {
                    Err(error) => Err(error),
                    Ok(extra) => Ok(Arguments { condition, extra }),
                }
            }
        },
    }
}

/// The models of a part of a list are that part of the list's models.
pub proof fn lemma_models_subrange(list: Seq<TokenTree>, from: int, to: int)
    requires
        0 <= from <= to <= list.len(),
    ensures
        TokenTree::models(list.subrange(from, to)) == TokenTree::models(list).subrange(from, to),
{
    let part = list.subrange(from, to);
    assert forall|i: int| 0 <= i < part.len() implies TokenTree::models(part)[i]
        == TokenTree::models(list).subrange(from, to)[i] by {
        assert(part[i] == list[from + i]);
    }
    assert(TokenTree::models(part) =~= TokenTree::models(list).subrange(from, to));
}

/// Tells whether the token is a comma.
fn is_comma_token(tree: &TokenTree) -> (b: bool)
    ensures
        b == is_comma(tree@),
{
    match tree {
        TokenTree::Punct(mark, _) => *mark == ',',
        _ => false,
    }
}

/// The index of the first comma of `list`.
fn find_comma(list: &Vec<TokenTree>) -> (k: usize)
    ensures
        k == first_comma(TokenTree::models(list@)),
        k <= list@.len(),
{
    let ghost models = TokenTree::models(list@);
    let mut i: usize = 0;
    assert(models.skip(0) == models);
    while i < list.len() && !is_comma_token(&list[i])
        invariant
            i <= list.len(),
            models == TokenTree::models(list@),
            first_comma(models) == i + first_comma(models.skip(i as int)),
        decreases list.len() - i,
    {
        assert(models.skip(i as int)[0] == list@[i as int]@);
        assert(models.skip(i as int).drop_first() == models.skip(i + 1));
        i += 1;
    }
    proof {
        if i < list.len() {
            assert(models.skip(i as int)[0] == list@[i as int]@);
        }
    }
    i
}

impl Then {
    /// Reads what the tokens after the comma add.
    pub fn from_trees(rest: Vec<TokenTree>, at: usize) -> (out: Result<Then, SyntaxError>)
        ensures
            match addition_of(TokenTree::models(rest@), at as int) {
                Ok(extra) => out is Ok && out->Ok_0@ == extra,
                Err(error) => out == Err::<Then, SyntaxError>(error),
            },
    {
        if rest.len() == 0 {
            return Err(SyntaxError { expected: Expected::Attribute, at });
        }
        assert(TokenTree::models(rest@)[0] == rest@[0]@);
        if !rest[0].is_ident("const") {
            return Ok(Then::Attribute(rest));
        }
        if rest.len() == 1 {
            return Ok(Then::Const);
        }
        assert(TokenTree::models(rest@)[1] == rest@[1]@);
        if rest.len() == 2 && is_comma_token(&rest[1]) {
            return Ok(Then::Const);
        }
        Err(SyntaxError { expected: Expected::End, at })
    }
}

impl Args {
    /// Reads the arguments of `attr` from their tokens.
    pub fn from_trees(list: Vec<TokenTree>) -> (out: Result<Args, SyntaxError>)
        ensures
            match arguments_of(TokenTree::models(list@)) {
                Ok(arguments) => out is Ok && out->Ok_0@ == arguments,
                Err(error) => out == Err::<Args, SyntaxError>(error),
            },
    {
        let ghost models = TokenTree::models(list@);
        let k = find_comma(&list);
        let mut front = list;
        let mut rest = front.split_off(k);
        proof {
            lemma_models_subrange(list@, 0, k as int);
            lemma_models_subrange(list@, k as int, list@.len() as int);
            assert(models.subrange(0, k as int) == models.take(k as int));
        }
        let tokens = tokens_of_trees(&front);
        let condition = match Expr::from_tokens(&tokens) {
            Ok(condition) => condition,
            Err(error) => {
                return Err(error);
            },
        };
        if rest.len() == 0 {
            return Err(SyntaxError { expected: Expected::Comma, at: tokens.len() });
        }
        rest.remove(0);
        proof {
            assert(rest@ == list@.subrange(k + 1, list@.len() as int));
            lemma_models_subrange(list@, k + 1, list@.len() as int);
            assert(models.subrange(k + 1, list@.len() as int) == models.skip(k + 1));
        }
        match Then::from_trees(rest, tokens.len()) {
            Ok(extra) => Ok(Args { condition, extra }),
            Err(error) => Err(error),
        }
    }
}

} // verus!
