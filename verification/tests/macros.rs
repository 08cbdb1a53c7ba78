use rustversion::attr::{Args, Then};
use rustversion::bound::Bound;
use rustversion::date::Date;
use rustversion::expand::MacroError;
use rustversion::expr::{Checker, EvalError, Expr};
use rustversion::grammar::{Expected, SyntaxError};
use rustversion::lexer::{tokens_of_trees, Keyword, Token};
use rustversion::release::{Release, ReleaseSelector};
use rustversion::tokens::{Delimiter, TokenTree};
use rustversion::version::{Channel, Version};

fn ident(word: &str) -> TokenTree {
    TokenTree::Ident(String::from(word))
}

fn literal(text: &str) -> TokenTree {
    TokenTree::Literal(String::from(text))
}

fn punct(mark: char) -> TokenTree {
    TokenTree::Punct(mark, false)
}

fn parens(stream: Vec<TokenTree>) -> TokenTree {
    TokenTree::Group(Delimiter::Parenthesis, stream)
}

fn code() -> Vec<TokenTree> {
    vec![
        ident("pub"),
        ident("unsafe"),
        ident("fn"),
        ident("f"),
        parens(vec![]),
        TokenTree::Group(Delimiter::Brace, vec![]),
    ]
}

fn rustc(minor: u16, channel: Channel) -> Version {
    Version {
        release: Release { minor, patch: 0 },
        channel,
    }
}

fn syntax(expected: Expected, at: usize) -> Result<Vec<TokenTree>, MacroError> {
    Err(MacroError::Syntax(SyntaxError { expected, at }))
}

#[test]
fn token_trees_give_the_tokens_of_a_selector() {
    let trees = vec![
        ident("all"),
        parens(vec![
            ident("since"),
            parens(vec![literal("1.31")]),
            punct(','),
            TokenTree::Group(
                Delimiter::Invisible,
                vec![
                    ident("before"),
                    parens(vec![
                        literal("2019"),
                        punct('-'),
                        literal("01"),
                        punct('-'),
                        literal("07"),
                    ]),
                ],
            ),
        ]),
    ];
    assert_eq!(
        tokens_of_trees(&trees),
        vec![
            Token::Word(Keyword::All),
            Token::Open,
            Token::Word(Keyword::Since),
            Token::Open,
            Token::Number { value: 1, width: 1 },
            Token::Dot,
            Token::Number { value: 31, width: 2 },
            Token::Close,
            Token::Comma,
            Token::Word(Keyword::Before),
            Token::Open,
            Token::Number { value: 2019, width: 4 },
            Token::Dash,
            Token::Number { value: 1, width: 2 },
            Token::Dash,
            Token::Number { value: 7, width: 2 },
            Token::Close,
            Token::Close,
        ]
    );
    assert_eq!(
        Expr::from_trees(&trees),
        Ok(Expr::All(vec![
            Expr::Since(Bound::Stable(ReleaseSelector {
                minor: 31,
                patch: None
            })),
            Expr::Before(Bound::Nightly(Date {
                year: 2019,
                month: 1,
                day: 7
            })),
        ]))
    );
}

#[test]
fn other_groups_are_no_tokens_of_a_selector() {
    let trees = vec![
        ident("not"),
        TokenTree::Group(Delimiter::Bracket, vec![ident("beta")]),
        TokenTree::Group(Delimiter::Brace, vec![]),
        punct('+'),
        literal("\"stable\""),
    ];
    assert_eq!(
        tokens_of_trees(&trees),
        vec![
            Token::Word(Keyword::Not),
            Token::Unknown,
            Token::Unknown,
            Token::Unknown,
            Token::Unknown,
            Token::Word(Keyword::Stable),
            Token::Unknown,
        ]
    );
}

#[test]
fn a_selector_macro_keeps_or_drops_the_code() {
    let mut checker = Checker::new();
    let stable = rustc(40, Channel::Stable);
    assert_eq!(
        rustversion::stable(vec![], code(), stable, &mut checker),
        Ok(code())
    );
    assert_eq!(
        rustversion::beta(vec![], code(), stable, &mut checker),
        Ok(vec![])
    );
    assert_eq!(
        rustversion::nightly(vec![], code(), stable, &mut checker),
        Ok(vec![])
    );
    assert_eq!(
        rustversion::nightly(vec![], code(), rustc(40, Channel::Dev), &mut checker),
        Ok(code())
    );
    assert_eq!(
        rustversion::stable(vec![literal("1.40")], code(), stable, &mut checker),
        Ok(code())
    );
    assert_eq!(
        rustversion::stable(
            vec![literal("1.40"), punct('.'), literal("1")],
            code(),
            stable,
            &mut checker
        ),
        Ok(vec![])
    );
    assert_eq!(
        rustversion::since(vec![literal("1.39")], code(), stable, &mut checker),
        Ok(code())
    );
    assert_eq!(
        rustversion::since(vec![literal("1.41")], code(), stable, &mut checker),
        Ok(vec![])
    );
    assert_eq!(
        rustversion::before(vec![literal("1.41")], code(), stable, &mut checker),
        Ok(code())
    );
    assert_eq!(
        rustversion::not(vec![ident("nightly")], code(), stable, &mut checker),
        Ok(code())
    );
    assert_eq!(
        rustversion::any(
            vec![ident("beta"), punct(','), ident("stable")],
            code(),
            stable,
            &mut checker
        ),
        Ok(code())
    );
    assert_eq!(
        rustversion::all(
            vec![ident("beta"), punct(','), ident("stable")],
            code(),
            stable,
            &mut checker
        ),
        Ok(vec![])
    );
    assert_eq!(rustversion::any(vec![], code(), stable, &mut checker), syntax(Expected::Open, 1));
    assert_eq!(checker.minimum(), None);
}

#[test]
fn a_selector_macro_reports_what_it_cannot_read() {
    let mut checker = Checker::new();
    let stable = rustc(40, Channel::Stable);
    assert_eq!(
        rustversion::since(vec![], code(), stable, &mut checker),
        syntax(Expected::Open, 1)
    );
    assert_eq!(
        rustversion::since(vec![literal("2.0")], code(), stable, &mut checker),
        syntax(Expected::Release, 2)
    );
    assert_eq!(
        rustversion::beta(vec![ident("x")], code(), stable, &mut checker),
        syntax(Expected::End, 1)
    );
    assert_eq!(
        rustversion::expand::cfg("sometimes", vec![], code(), stable, &mut checker),
        syntax(Expected::Selector, 0)
    );
}

#[test]
fn a_selector_macro_reports_a_contradiction() {
    let mut checker = Checker::new();
    let nightly = rustc(
        40,
        Channel::Nightly(Date {
            year: 2020,
            month: 2,
            day: 2,
        }),
    );
    let floor = vec![
        ident("minver"),
        parens(vec![
            literal("2020"),
            punct('-'),
            literal("01"),
            punct('-'),
            literal("01"),
        ]),
    ];
    assert_eq!(
        rustversion::all(floor, code(), nightly, &mut checker),
        Ok(code())
    );
    let asserted = Bound::Nightly(Date {
        year: 2020,
        month: 1,
        day: 1,
    });
    assert_eq!(checker.minimum(), Some(asserted));
    assert_eq!(
        rustversion::stable(vec![], code(), nightly, &mut checker),
        Err(MacroError::Eval(EvalError::Contradiction {
            asserted,
            selector: Expr::Stable
        }))
    );
}

fn attr_args(condition: Vec<TokenTree>, rest: Vec<TokenTree>) -> Vec<TokenTree> {
    let mut args = condition;
    args.push(punct(','));
    args.extend(rest);
    args
}

#[test]
fn the_arguments_of_attr() {
    let since = vec![ident("since"), parens(vec![literal("1.32")])];
    let condition = || {
        Expr::Since(Bound::Stable(ReleaseSelector {
            minor: 32,
            patch: None,
        }))
    };
    assert_eq!(
        Args::from_trees(attr_args(since.clone_from_list(), vec![ident("const")])),
        Ok(Args {
            condition: condition(),
            extra: Then::Const
        })
    );
    assert_eq!(
        Args::from_trees(attr_args(
            since.clone_from_list(),
            vec![ident("const"), punct(',')]
        )),
        Ok(Args {
            condition: condition(),
            extra: Then::Const
        })
    );
    let repr = vec![ident("repr"), parens(vec![ident("packed")])];
    assert_eq!(
        Args::from_trees(attr_args(since.clone_from_list(), repr.clone_from_list())),
        Ok(Args {
            condition: condition(),
            extra: Then::Attribute(repr.clone_from_list())
        })
    );
    assert_eq!(
        Args::from_trees(since.clone_from_list()),
        Err(SyntaxError {
            expected: Expected::Comma,
            at: 6
        })
    );
    assert_eq!(
        Args::from_trees(attr_args(since.clone_from_list(), vec![])),
        Err(SyntaxError {
            expected: Expected::Attribute,
            at: 6
        })
    );
    assert_eq!(
        Args::from_trees(attr_args(
            since.clone_from_list(),
            vec![ident("const"), ident("fn")]
        )),
        Err(SyntaxError {
            expected: Expected::End,
            at: 6
        })
    );
    assert_eq!(
        Args::from_trees(attr_args(vec![ident("sometimes")], vec![ident("const")])),
        Err(SyntaxError {
            expected: Expected::Selector,
            at: 0
        })
    );
    assert_eq!(
        Args::from_trees(vec![]),
        Err(SyntaxError {
            expected: Expected::Selector,
            at: 0
        })
    );
}

trait CloneList {
    fn clone_from_list(&self) -> Vec<TokenTree>;
}

impl CloneList for Vec<TokenTree> {
    fn clone_from_list(&self) -> Vec<TokenTree> {
        self.iter().map(copy).collect()
    }
}

fn copy(tree: &TokenTree) -> TokenTree {
    match tree {
        TokenTree::Group(delimiter, stream) => {
            TokenTree::Group(*delimiter, stream.iter().map(copy).collect())
        }
        TokenTree::Ident(name) => TokenTree::Ident(name.clone()),
        TokenTree::Punct(mark, joint) => TokenTree::Punct(*mark, *joint),
        TokenTree::Literal(text) => TokenTree::Literal(text.clone()),
    }
}

#[test]
fn attr_makes_a_function_const() {
    let mut checker = Checker::new();
    let args = || attr_args(vec![ident("all"), parens(vec![])], vec![ident("const")]);
    let expected = vec![
        ident("pub"),
        ident("const"),
        ident("unsafe"),
        ident("fn"),
        ident("f"),
        parens(vec![]),
        TokenTree::Group(Delimiter::Brace, vec![]),
    ];
    assert_eq!(
        rustversion::attr(args(), code(), rustc(40, Channel::Stable), &mut checker),
        Ok(expected)
    );
    assert_eq!(
        rustversion::attr(
            args(),
            vec![ident("struct"), ident("S")],
            rustc(40, Channel::Stable),
            &mut checker
        ),
        Err(MacroError::Misplaced)
    );
    let never = attr_args(vec![ident("any"), parens(vec![])], vec![ident("const")]);
    assert_eq!(
        rustversion::attr(
            never,
            vec![ident("struct"), ident("S")],
            rustc(40, Channel::Stable),
            &mut checker
        ),
        Ok(vec![ident("struct"), ident("S")])
    );
}

#[test]
fn attr_adds_attributes() {
    let mut checker = Checker::new();
    let repr = vec![ident("repr"), parens(vec![ident("packed")])];
    let args = || {
        attr_args(
            vec![ident("before"), parens(vec![literal("1.33")])],
            vec![ident("repr"), parens(vec![ident("packed")])],
        )
    };
    let mut inner = vec![ident("all"), parens(vec![]), punct(',')];
    inner.extend(repr);
    let mut expected = vec![
        punct('#'),
        TokenTree::Group(Delimiter::Bracket, vec![ident("cfg_attr"), parens(inner)]),
    ];
    expected.extend(code());
    assert_eq!(
        rustversion::attr(args(), code(), rustc(32, Channel::Stable), &mut checker),
        Ok(expected)
    );
    assert_eq!(
        rustversion::attr(args(), code(), rustc(33, Channel::Stable), &mut checker),
        Ok(code())
    );
    assert_eq!(
        rustversion::attr(vec![ident("stable")], code(), rustc(33, Channel::Stable), &mut checker),
        syntax(Expected::Comma, 1)
    );
}
