//! Token trees: the code that a selector is attached to, as far as this
//! crate looks into it.
//!
//! A group is a run of token trees between delimiters. A group without
//! delimiters is transparent: it holds together what a macro put in the
//! place of one of its parameters, and whoever looks for a declaration has
//! to look through it.

use crate::text::{chars_of, is_word};
use vstd::prelude::*;

verus! {

/// What encloses a group.
#[derive(Copy, Clone, Debug, PartialEq, Eq, Hash, Structural)]
pub enum Delimiter {
    Parenthesis,
    Brace,
    Bracket,
    /// Nothing: the group is transparent.
    Invisible,
}

/// A token, or a delimited run of them.
#[derive(Debug, PartialEq, Eq)]
pub enum TokenTree {
    Group(Delimiter, Vec<TokenTree>),
    Ident(String),
    /// A punctuation character, and whether the next one is part of the same
    /// operator.
    Punct(char, bool),
    Literal(String),
}

/// A token tree as a mathematical value.
pub enum Tree {
    Group(Delimiter, Seq<Tree>),
    Ident(Seq<char>),
    Punct(char, bool),
    Literal(Seq<char>),
}

impl TokenTree {
    /// The token tree as a mathematical value.
    pub open spec fn model(self) -> Tree
        decreases self,
    {
        match self {
            TokenTree::Group(delimiter, stream) => Tree::Group(
                delimiter,
                TokenTree::models(stream@),
            ),
            TokenTree::Ident(name) => Tree::Ident(name@),
            TokenTree::Punct(mark, joint) => Tree::Punct(mark, joint),
            TokenTree::Literal(text) => Tree::Literal(text@),
        }
    }

    /// The token trees of a list as mathematical values, in order.
    pub open spec fn models(list: Seq<TokenTree>) -> Seq<Tree>
        decreases list,
    {
        Seq::new(
            list.len(),
            |i: int|
                if 0 <= i < list.len() {
                    list[i].model()
                } else {
                    Tree::Punct(' ', false)
                },
        )
    }

    /// The identifier `word`.
    pub fn ident(word: &str) -> (out: TokenTree)
        ensures
            out@ == Tree::Ident(word@),
    {
        TokenTree::Ident(word.to_owned())
    }

    /// Tells whether the token is the identifier `word`.
    pub fn is_ident(&self, word: &str) -> (b: bool)
        ensures
            b == (self@ == Tree::Ident(word@)),
    {
        match self {
            TokenTree::Ident(name) => {
                let chars = chars_of(name.as_str());
                is_word(&chars, word)
            },
            _ => false,
        }
    }

    /// Tells whether the token is a transparent group.
    pub fn is_transparent(&self) -> (b: bool)
        ensures
            b == self@.transparent(),
    {
        match self {
            TokenTree::Group(Delimiter::Invisible, _) => true,
            _ => false,
        }
    }
}

impl View for TokenTree {
    type V = Tree;

    open spec fn view(&self) -> Tree {
        self.model()
    }
}

impl Tree {
    /// The tree is a group without delimiters.
    pub open spec fn transparent(self) -> bool {
        match self {
            Tree::Group(Delimiter::Invisible, _) => true,
            _ => false,
        }
    }

    /// The token trees inside a group; none for a single token.
    pub open spec fn stream(self) -> Seq<Tree> {
        match self {
            Tree::Group(_, stream) => stream,
            _ => Seq::empty(),
        }
    }

    /// How many tokens and groups the tree is made of.
    pub open spec fn weight(self) -> nat
        decreases self,
    {
        match self {
            Tree::Group(_, stream) => 1 + Tree::weights(stream),
            _ => 1,
        }
    }

    /// How many tokens and groups the trees of a list are made of.
    pub open spec fn weights(list: Seq<Tree>) -> nat
        decreases list,
    {
        if list.len() == 0 {
            0
        } else {
            Tree::weights(list.drop_last()) + list.last().weight()
        }
    }

    /// The tokens of a list with every transparent group among them replaced
    /// by what it holds, and so on within what it holds. Groups with
    /// delimiters stay as they are.
    pub open spec fn flat(list: Seq<Tree>) -> Seq<Tree>
        decreases Tree::weights(list),
    {
        if list.len() == 0 {
            Seq::empty()
        } else if list[0].transparent() {
            proof {
                lemma_weights_opened(list, 0);
            }
            Tree::flat(list[0].stream() + list.drop_first())
        } else {
            proof {
                lemma_weights_opened(list, 0);
            }
            seq![list[0]] + Tree::flat(list.drop_first())
        }
    }
}

/// The weights of two lists add up.
pub proof fn lemma_weights_concat(a: Seq<Tree>, b: Seq<Tree>)
    ensures
        Tree::weights(a + b) == Tree::weights(a) + Tree::weights(b),
    decreases b.len(),
{
    if b.len() == 0 {
        assert(a + b == a);
    } else {
        lemma_weights_concat(a, b.drop_last());
        assert((a + b).drop_last() == a + b.drop_last());
        assert((a + b).last() == b.last());
    }
}

/// Taking the tree at index `k` out of a list, or putting what it holds in
/// its place, makes the list lighter.
pub proof fn lemma_weights_opened(list: Seq<Tree>, k: int)
    requires
        0 <= k < list.len(),
    ensures
        Tree::weights(list.take(k) + list.skip(k + 1)) < Tree::weights(list),
        Tree::weights(list.take(k) + list[k].stream() + list.skip(k + 1)) < Tree::weights(list),
        k == 0 ==> list.take(k) + list.skip(k + 1) == list.drop_first(),
        k == 0 ==> list.take(k) + list[k].stream() + list.skip(k + 1) == list[k].stream()
            + list.drop_first(),
{
    let before = list.take(k);
    let after = list.skip(k + 1);
    let one = seq![list[k]];
    assert(list == before + one + after);
    lemma_weights_concat(before + one, after);
    lemma_weights_concat(before, one);
    assert(one.drop_last() == Seq::<Tree>::empty());
    assert(Tree::weights(one.drop_last()) == 0);
    assert(one.last() == list[k]);
    assert(Tree::weights(one) == list[k].weight());
    lemma_weights_concat(before, after);
    lemma_weights_concat(before + list[k].stream(), after);
    lemma_weights_concat(before, list[k].stream());
    if k == 0 {
        assert(before + after == list.drop_first());
        assert(before + list[k].stream() + after == list[k].stream() + list.drop_first());
    }
}

/// Walks the tokens of a list in order, looking through transparent groups.
pub struct IterImpl {
    /// What is left to walk, the next tree last.
    stack: Vec<TokenTree>,
}

/// Starts a walk through `tokens`.
pub fn new(tokens: Vec<TokenTree>) -> (out: IterImpl)
    ensures
        out@ == Tree::flat(TokenTree::models(tokens@)),
{
    let mut stack: Vec<TokenTree> = Vec::new();
    let ghost all = TokenTree::models(tokens@);
    let mut tokens = tokens;
    assert(TokenTree::models(stack@).reverse() == Seq::<Tree>::empty());
    assert(all + Seq::<Tree>::empty() == all);
    push_reversed(&mut stack, &mut tokens);
    assert(Seq::<Tree>::empty() + all == all);
    IterImpl { stack }
}

/// Moves the trees of `from` onto `stack`, the first of them last.
pub fn push_reversed(stack: &mut Vec<TokenTree>, from: &mut Vec<TokenTree>)
    ensures
        final(from)@.len() == 0,
        TokenTree::models(final(stack)@).reverse() == TokenTree::models(old(from)@)
            + TokenTree::models(old(stack)@).reverse(),
{
    let ghost below = TokenTree::models(stack@).reverse();
    let ghost all = TokenTree::models(from@);
    assert(all.take(all.len() as int) == all);
    assert(all.skip(all.len() as int) + below == below);
    while from.len() > 0
        invariant
            from@.len() <= all.len(),
            TokenTree::models(from@) == all.take(from@.len() as int),
            TokenTree::models(stack@).reverse() == all.skip(from@.len() as int) + below,
        decreases from.len(),
    {
        let ghost before = TokenTree::models(stack@);
        let ghost n = from@.len() as int;
        let ghost full = from@;
        let tree = from.pop().unwrap();
        assert(TokenTree::models(full)[n - 1] == full[n - 1].model());
        assert(tree@ == all[n - 1]);
        stack.push(tree);
        assert(TokenTree::models(stack@) == before.push(tree@));
        assert(before.push(tree@).reverse() == seq![tree@] + before.reverse());
        assert(seq![tree@] + (all.skip(n) + below) == all.skip(n - 1) + below);
        assert(TokenTree::models(from@) == all.take(n - 1));
    }
}

impl View for IterImpl {
    type V = Seq<Tree>;

    /// The tokens that the walk still has to yield, in order.
    closed spec fn view(&self) -> Seq<Tree> {
        Tree::flat(TokenTree::models(self.stack@).reverse())
    }
}

impl IterImpl {
    /// Yields the next token, if one is left.
    pub fn next(&mut self) -> (out: Option<TokenTree>)
        ensures
            match out {
                Some(tree) => old(self)@.len() > 0 && tree@ == old(self)@[0] && final(self)@ == old(
                    self,
                )@.drop_first(),
                None => old(self)@.len() == 0 && final(self)@.len() == 0,
            },
    {
        loop
            invariant
                self@ == old(self)@,
            decreases Tree::weights(TokenTree::models(self.stack@).reverse()),
        {
            let ghost todo = TokenTree::models(self.stack@).reverse();
            let ghost below = TokenTree::models(self.stack@);
            let tree = match self.stack.pop() {
                Some(tree) => tree,
                None => {
                    assert(todo == Seq::<Tree>::empty());
                    return None;
                },
            };
            proof {
                assert(todo[0] == tree@);
                assert(TokenTree::models(self.stack@) == below.drop_last());
                assert(below.drop_last().reverse() == todo.drop_first());
                lemma_weights_opened(todo, 0);
            }
            match tree {
                TokenTree::Group(Delimiter::Invisible, stream) => {
                    let mut stream = stream;
                    push_reversed(&mut self.stack, &mut stream);
                },
                tree => {
                    assert(!tree@.transparent());
                    assert((seq![todo[0]] + Tree::flat(todo.drop_first())).drop_first()
                        == Tree::flat(todo.drop_first()));
                    return Some(tree);
                },
            }
        }
    }
}

} // verus!
