//! Making a function `const`.
//!
//! `const` goes in front of the qualifiers of the first `fn` of the code:
//! `pub async unsafe extern "C" fn f()` becomes
//! `pub const async unsafe extern "C" fn f()`. The `fn` may sit inside
//! transparent groups. Those are opened on the way to it, and only those.

use crate::tokens::{lemma_weights_opened, push_reversed, Delimiter, TokenTree, Tree};
use vstd::prelude::*;

verus! {

/// The code holds no function that could be made `const`.
#[derive(Copy, Clone, Debug, PartialEq, Eq, Hash, Structural)]
pub struct Misplaced;

/// The run of qualifiers that a list of tokens ends with.
pub struct Qualifiers {
    /// The place of the last qualifier in their order, 0 for an empty run.
    pub rank: nat,
    /// How many tokens the run has.
    pub count: nat,
}

/// The token is the keyword `fn`.
pub open spec fn is_fn(tree: Tree) -> bool {
    tree == Tree::Ident("fn"@)
}

/// The search stops at the token: it is `fn`, or a transparent group to
/// open.
pub open spec fn stops(tree: Tree) -> bool {
    is_fn(tree) || tree.transparent()
}

/// The index of the first token of `list` at which the search stops, or the
/// length of `list` if it stops at none.
pub open spec fn first_stop(list: Seq<Tree>) -> nat
    decreases list.len(),
{
    if list.len() == 0 || stops(list[0]) {
        0
    } else {
        1 + first_stop(list.drop_first())
    }
}

/// The place of a qualifier in their order: `async`, `unsafe`, `extern`.
/// Another token has the place 0.
pub open spec fn qualifier_rank(tree: Tree) -> nat {
    if tree == Tree::Ident("async"@) {
        1
    } else if tree == Tree::Ident("unsafe"@) {
        2
    } else if tree == Tree::Ident("extern"@) {
        3
    } else {
        0
    }
}

/// The run of qualifiers that `list` ends with.
///
/// Reading from the left, a qualifier goes on with the run if it comes
/// later in their order than the one before it, and so does a literal right
/// after `extern`, the name of an ABI. Any other token ends the run and
/// begins none.
pub open spec fn qualifiers(list: Seq<Tree>) -> Qualifiers
    decreases list.len(),
{
    if list.len() == 0 {
        Qualifiers { rank: 0, count: 0 }
    } else {
        let before = qualifiers(list.drop_last());
        let next = list.last();
        if qualifier_rank(next) > before.rank {
            Qualifiers { rank: qualifier_rank(next), count: before.count + 1 }
        } else if next is Literal && before.rank == 3 {
            Qualifiers { rank: 4, count: before.count + 1 }
        } else {
            Qualifiers { rank: 0, count: 0 }
        }
    }
}

/// The tokens of `list` with `const` in front of the qualifiers of the
/// first `fn`, if there is a `fn`.
///
/// A transparent group before the first `fn` is replaced by what it holds,
/// and the search goes on in that. Whatever follows the `fn` stays as it is.
pub open spec fn with_const(list: Seq<Tree>) -> Option<Seq<Tree>>
    decreases Tree::weights(list),
{
    let k = first_stop(list) as int;
    if k >= list.len() {
        None
    } else if list[k].transparent() {
        proof {
            lemma_weights_opened(list, k);
        }
        with_const(list.take(k) + list[k].stream() + list.skip(k + 1))
    } else {
        let at = k - qualifiers(list.take(k)).count;
        Some(list.take(at) + seq![Tree::Ident("const"@)] + list.skip(at))
    }
}

/// Where the search does not stop within `a`, it stops in `a + b` where it
/// stops in `b`.
pub proof fn lemma_first_stop_after(a: Seq<Tree>, b: Seq<Tree>)
    requires
        first_stop(a) == a.len(),
    ensures
        first_stop(a + b) == a.len() + first_stop(b),
    decreases a.len(),
{
    if a.len() == 0 {
        assert(a + b == b);
    } else {
        assert((a + b)[0] == a[0]);
        assert((a + b).drop_first() == a.drop_first() + b);
        lemma_first_stop_after(a.drop_first(), b);
    }
}

/// Where the search does not stop within `a` nor at `next`, it does not
/// stop within `a` followed by `next`.
pub proof fn lemma_first_stop_push(a: Seq<Tree>, next: Tree)
    requires
        first_stop(a) == a.len(),
        !stops(next),
    ensures
        first_stop(a.push(next)) == a.len() + 1,
{
    let one = seq![next];
    assert(first_stop(one.drop_first()) == 0);
    assert(first_stop(one) == 1);
    lemma_first_stop_after(a, one);
    assert(a + one == a.push(next));
}

/// A run of qualifiers is no longer than the list that it ends.
pub proof fn lemma_qualifiers_count(list: Seq<Tree>)
    ensures
        qualifiers(list).count <= list.len(),
        qualifiers(list).rank <= 4,
    decreases list.len(),
{
    if list.len() > 0 {
        lemma_qualifiers_count(list.drop_last());
    }
}

/// The place of a token among the qualifiers.
fn rank_of(tree: &TokenTree) -> (rank: u8)
    ensures
        rank == qualifier_rank(tree@),
{
    proof {
        reveal_strlit("async");
        reveal_strlit("unsafe");
        reveal_strlit("extern");
    }
    if tree.is_ident("async") {
        1
    } else if tree.is_ident("unsafe") {
        2
    } else if tree.is_ident("extern") {
        3
    } else {
        0
    }
}

/// Where the search stops nowhere, there is no place for `const`.
pub proof fn lemma_with_const_nowhere(done: Seq<Tree>)
    requires
        first_stop(done) == done.len(),
    ensures
        with_const(done) is None,
{
}

/// Where the search first stops at a transparent group, it goes on in the
/// list that has what the group holds in the group's place.
pub proof fn lemma_with_const_opens(done: Seq<Tree>, group: Tree, after: Seq<Tree>)
    requires
        first_stop(done) == done.len(),
        group.transparent(),
    ensures
        with_const(done + seq![group] + after) == with_const(done + group.stream() + after),
{
    let whole = done + seq![group] + after;
    let k = done.len() as int;
    assert(first_stop(seq![group] + after) == 0);
    lemma_first_stop_after(done, seq![group] + after);
    assert(done + (seq![group] + after) == whole);
    assert(whole[k] == group);
    assert(whole.take(k) == done);
    assert(whole.skip(k + 1) == after);
}

/// Where the search first stops at `fn`, `const` goes in front of the
/// qualifiers that come right before it.
pub proof fn lemma_with_const_found(done: Seq<Tree>, found: Tree, after: Seq<Tree>)
    requires
        first_stop(done) == done.len(),
        is_fn(found),
    ensures
        qualifiers(done).count <= done.len(),
        with_const(done + seq![found] + after) == Some(
            done.take(done.len() - qualifiers(done).count) + seq![Tree::Ident("const"@)]
                + done.skip(done.len() - qualifiers(done).count) + seq![found] + after,
        ),
{
    let whole = done + seq![found] + after;
    let k = done.len() as int;
    lemma_qualifiers_count(done);
    let at = k - qualifiers(done).count;
    assert(first_stop(seq![found] + after) == 0);
    lemma_first_stop_after(done, seq![found] + after);
    assert(done + (seq![found] + after) == whole);
    assert(whole[k] == found);
    assert(whole.take(k) == done);
    assert(whole.take(at) == done.take(at));
    assert(whole.skip(at) == done.skip(at) + seq![found] + after);
    assert(whole.take(at) + seq![Tree::Ident("const"@)] + whole.skip(at) == done.take(at)
        + seq![Tree::Ident("const"@)] + done.skip(at) + seq![found] + after);
}

/// Moves the trees of `rest` to the end of `out`, the last of them first.
fn append_reversed(out: &mut Vec<TokenTree>, rest: &mut Vec<TokenTree>)
    ensures
        TokenTree::models(final(out)@) == TokenTree::models(old(out)@) + TokenTree::models(
            old(rest)@,
        ).reverse(),
{
    let ghost wanted = TokenTree::models(out@) + TokenTree::models(rest@).reverse();
    while rest.len() > 0
        invariant
            TokenTree::models(out@) + TokenTree::models(rest@).reverse() == wanted,
        decreases rest.len(),
    {
        let ghost left = TokenTree::models(rest@);
        let ghost built = TokenTree::models(out@);
        let next = rest.pop().unwrap();
        assert(TokenTree::models(rest@) == left.drop_last());
        assert(left.reverse() == seq![next@] + left.drop_last().reverse());
        out.push(next);
        assert(TokenTree::models(out@) == built.push(next@));
        assert(built.push(next@) + left.drop_last().reverse() == built + left.reverse());
    }
    assert(TokenTree::models(rest@).reverse() == Seq::<Tree>::empty());
    assert(TokenTree::models(out@) + Seq::<Tree>::empty() == TokenTree::models(out@));
}

/// Puts `const` into `out` at index `at`, then `found`, then the trees of
/// `rest`, the last of them first.
fn finish(out: Vec<TokenTree>, at: usize, found: TokenTree, rest: Vec<TokenTree>) -> (all: Vec<
    TokenTree,
>)
    requires
        at <= out@.len(),
    ensures
        TokenTree::models(all@) == TokenTree::models(out@).take(at as int) + seq![
            Tree::Ident("const"@),
        ] + TokenTree::models(out@).skip(at as int) + seq![found@] + TokenTree::models(
            rest@,
        ).reverse(),
{
    let ghost done = TokenTree::models(out@);
    let mut all = out;
    let mut rest = rest;
    let word = TokenTree::ident("const");
    let ghost inserted = word@;
    all.insert(at, word);
    assert(TokenTree::models(all@) == done.take(at as int) + seq![inserted] + done.skip(
        at as int,
    ));
    let ghost before = TokenTree::models(all@);
    all.push(found);
    assert(TokenTree::models(all@) == before + seq![found@]);
    append_reversed(&mut all, &mut rest);
    all
}

/// Puts `const` in front of the qualifiers of the first `fn` of `tokens`.
/// Fails if there is no `fn` outside groups with delimiters.
pub fn insert_const(tokens: Vec<TokenTree>) -> (out: Result<Vec<TokenTree>, Misplaced>)
    ensures
        match with_const(TokenTree::models(tokens@)) {
            Some(list) => out is Ok && TokenTree::models(out->Ok_0@) == list,
            None => out is Err,
        },
{
    let ghost all = TokenTree::models(tokens@);
    let mut input = tokens;
    let mut rest: Vec<TokenTree> = Vec::new();
    assert(TokenTree::models(rest@).reverse() == Seq::<Tree>::empty());
    push_reversed(&mut rest, &mut input);
    let mut out: Vec<TokenTree> = Vec::new();
    let mut rank: u8 = 0;
    let mut at: usize = 0;
    proof {
        assert(all + Seq::<Tree>::empty() == all);
        assert(TokenTree::models(out@) == Seq::<Tree>::empty());
        assert(Seq::<Tree>::empty() + all == all);
    }
    loop
        invariant
            all == TokenTree::models(tokens@),
            at <= out@.len(),
            with_const(all) == with_const(
                TokenTree::models(out@) + TokenTree::models(rest@).reverse(),
            ),
            first_stop(TokenTree::models(out@)) == out@.len(),
            qualifiers(TokenTree::models(out@)) == (Qualifiers {
                rank: rank as nat,
                count: (out@.len() - at) as nat,
            }),
        decreases Tree::weights(TokenTree::models(rest@).reverse()),
    {
        let ghost done = TokenTree::models(out@);
        let ghost todo = TokenTree::models(rest@).reverse();
        let ghost below = TokenTree::models(rest@);
        let tree = match rest.pop() {
            Some(tree) => tree,
            None => {
                proof {
                    assert(todo == Seq::<Tree>::empty());
                    assert(done + todo == done);
                    lemma_with_const_nowhere(done);
                }
                return Err(Misplaced);
            },
        };
        let ghost after = TokenTree::models(rest@).reverse();
        proof {
            assert(todo[0] == tree@);
            assert(TokenTree::models(rest@) == below.drop_last());
            assert(below.drop_last().reverse() == todo.drop_first());
            assert(todo == seq![tree@] + after);
            assert(done + todo == done + seq![tree@] + after);
            lemma_weights_opened(todo, 0);
        }
        if tree.is_ident("fn") {
            proof {
                lemma_with_const_found(done, tree@, after);
            }
            return Ok(finish(out, at, tree, rest));
        }
        match tree {
            TokenTree::Group(Delimiter::Invisible, stream) => {
                let mut stream = stream;
                proof {
                    lemma_with_const_opens(done, tree@, after);
                    assert(done + tree@.stream() + after == done + (tree@.stream() + after));
                }
                push_reversed(&mut rest, &mut stream);
            },
            tree => {
                let next = rank_of(&tree);
                let literal = match &tree {
                    TokenTree::Literal(_) => true,
                    _ => false,
                };
                proof {
                    assert(!stops(tree@));
                    lemma_first_stop_push(done, tree@);
                    assert(done.push(tree@).drop_last() == done);
                    assert(done.push(tree@) + after == done + seq![tree@] + after);
                }
                out.push(tree);
                assert(TokenTree::models(out@) == done.push(tree@));
                if next > rank {
                    rank = next;
                } else if literal && rank == 3 {
                    rank = 4;
                } else {
                    rank = 0;
                    at = out.len();
                }
            },
        }
    }
}

} // verus!
