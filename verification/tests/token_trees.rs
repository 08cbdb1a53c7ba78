use rustversion::constfn::{insert_const, Misplaced};
use rustversion::tokens::{new, Delimiter, TokenTree};

fn ident(word: &str) -> TokenTree {
    TokenTree::Ident(String::from(word))
}

fn literal(text: &str) -> TokenTree {
    TokenTree::Literal(String::from(text))
}

fn group(delimiter: Delimiter, stream: Vec<TokenTree>) -> TokenTree {
    TokenTree::Group(delimiter, stream)
}

fn words(text: &str) -> Vec<TokenTree> {
    text.split(' ')
        .map(|word| {
            if word.starts_with('"') {
                literal(word)
            } else if word == "()" {
                group(Delimiter::Parenthesis, vec![])
            } else if word == "{}" {
                group(Delimiter::Brace, vec![])
            } else {
                ident(word)
            }
        })
        .collect()
}

#[test]
fn const_goes_before_fn() {
    assert_eq!(insert_const(words("fn f () {}")), Ok(words("const fn f () {}")));
    assert_eq!(
        insert_const(words("pub fn f () {}")),
        Ok(words("pub const fn f () {}"))
    );
}

#[test]
fn const_goes_before_the_qualifiers() {
    assert_eq!(
        insert_const(words("unsafe fn f () {}")),
        Ok(words("const unsafe fn f () {}"))
    );
    assert_eq!(
        insert_const(words("pub async unsafe extern \"C\" fn f () {}")),
        Ok(words("pub const async unsafe extern \"C\" fn f () {}"))
    );
    assert_eq!(
        insert_const(words("pub extern fn f () {}")),
        Ok(words("pub const extern fn f () {}"))
    );
}

#[test]
fn qualifiers_out_of_order_do_not_count() {
    assert_eq!(
        insert_const(words("unsafe async fn f () {}")),
        Ok(words("unsafe async const fn f () {}"))
    );
    assert_eq!(
        insert_const(words("unsafe unsafe fn f () {}")),
        Ok(words("unsafe unsafe const fn f () {}"))
    );
    assert_eq!(
        insert_const(words("extern \"C\" \"D\" fn f () {}")),
        Ok(words("extern \"C\" \"D\" const fn f () {}"))
    );
    assert_eq!(
        insert_const(words("\"C\" fn f () {}")),
        Ok(words("\"C\" const fn f () {}"))
    );
    assert_eq!(
        insert_const(words("extern \"C\" unsafe fn f () {}")),
        Ok(words("extern \"C\" unsafe const fn f () {}"))
    );
}

#[test]
fn only_the_first_fn_is_made_const() {
    assert_eq!(
        insert_const(words("fn f () {} unsafe fn g () {}")),
        Ok(words("const fn f () {} unsafe fn g () {}"))
    );
}

#[test]
fn const_is_only_for_functions() {
    assert_eq!(insert_const(words("struct S {}")), Err(Misplaced));
    assert_eq!(insert_const(vec![]), Err(Misplaced));
    assert_eq!(
        insert_const(vec![group(Delimiter::Brace, words("fn f () {}"))]),
        Err(Misplaced)
    );
    assert_eq!(
        insert_const(vec![group(Delimiter::Invisible, words("struct S {}"))]),
        Err(Misplaced)
    );
}

#[test]
fn transparent_groups_are_opened_up_to_the_fn() {
    let item = group(Delimiter::Invisible, words("pub unsafe fn f () {}"));
    assert_eq!(
        insert_const(vec![item]),
        Ok(words("pub const unsafe fn f () {}"))
    );

    let keyword = group(Delimiter::Invisible, words("fn"));
    let later = group(Delimiter::Invisible, words("x"));
    let mut input = words("pub unsafe");
    input.push(keyword);
    input.push(ident("f"));
    input.push(later);
    let mut expected = words("pub const unsafe fn f");
    expected.push(group(Delimiter::Invisible, words("x")));
    assert_eq!(insert_const(input), Ok(expected));

    let inner = group(Delimiter::Invisible, words("unsafe"));
    let outer = group(
        Delimiter::Invisible,
        vec![ident("pub"), ident("async"), inner],
    );
    let input = vec![outer, ident("fn"), ident("f")];
    assert_eq!(insert_const(input), Ok(words("pub const async unsafe fn f")));
}

#[test]
fn a_walk_looks_through_transparent_groups() {
    let inner = group(Delimiter::Invisible, words("b c"));
    let outer = group(
        Delimiter::Invisible,
        vec![ident("a"), inner, group(Delimiter::Invisible, vec![])],
    );
    let kept = group(
        Delimiter::Parenthesis,
        vec![group(Delimiter::Invisible, words("x"))],
    );
    let mut walk = new(vec![outer, TokenTree::Punct('+', false), kept, ident("d")]);
    assert_eq!(walk.next(), Some(ident("a")));
    assert_eq!(walk.next(), Some(ident("b")));
    assert_eq!(walk.next(), Some(ident("c")));
    assert_eq!(walk.next(), Some(TokenTree::Punct('+', false)));
    assert_eq!(
        walk.next(),
        Some(group(
            Delimiter::Parenthesis,
            vec![group(Delimiter::Invisible, words("x"))]
        ))
    );
    assert_eq!(walk.next(), Some(ident("d")));
    assert_eq!(walk.next(), None);
    assert_eq!(walk.next(), None);
}

#[test]
fn a_walk_through_nothing_ends_at_once() {
    assert_eq!(new(vec![]).next(), None);
    assert_eq!(
        new(vec![group(Delimiter::Invisible, vec![])]).next(),
        None
    );
}
