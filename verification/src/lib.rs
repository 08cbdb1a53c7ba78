//! Conditional compilation keyed on the compiler's version and release
//! channel: the version model, the selector language and its evaluator.
//!
//! The functions of this module are the macros themselves, as functions on
//! token trees: each takes the arguments of the macro, the code that the
//! macro is attached to, the version of the toolchain and the minimum
//! version that the build has asserted so far, and returns the code that
//! takes the place of the macro's input.

pub mod attr;
pub mod bound;
pub mod constfn;
pub mod date;
pub mod display;
pub mod expand;
pub mod expr;
pub mod grammar;
pub mod lexer;
pub mod release;
pub mod reread;
pub mod rustc;
pub mod text;
pub mod time;
pub mod tokens;
pub mod version;

use crate::expand::{attributed, cfg, gated, shown, MacroError};
use crate::expr::Checker;
use crate::tokens::TokenTree;
use crate::version::Version;
use vstd::prelude::*;

verus! {

/// The macro `stable`: keeps the code on a stable toolchain, or on the stable
/// toolchain of the release that `args` names.
pub fn stable(args: Vec<TokenTree>, input: Vec<TokenTree>, rustc: Version, checker: &mut Checker) -> (out:
    Result<Vec<TokenTree>, MacroError>)
    ensures
        shown(out) == gated(
            "stable"@,
            TokenTree::models(args@),
            TokenTree::models(input@),
            rustc,
            old(checker)@,
        ).result,
        final(checker)@ == gated(
            "stable"@,
            TokenTree::models(args@),
            TokenTree::models(input@),
            rustc,
            old(checker)@,
        ).minimum,
{
    cfg("stable", args, input, rustc, checker)
}

/// The macro `beta`: keeps the code on a beta toolchain.
pub fn beta(args: Vec<TokenTree>, input: Vec<TokenTree>, rustc: Version, checker: &mut Checker) -> (out:
    Result<Vec<TokenTree>, MacroError>)
    ensures
        shown(out) == gated(
            "beta"@,
            TokenTree::models(args@),
            TokenTree::models(input@),
            rustc,
            old(checker)@,
        ).result,
        final(checker)@ == gated(
            "beta"@,
            TokenTree::models(args@),
            TokenTree::models(input@),
            rustc,
            old(checker)@,
        ).minimum,
{
    cfg("beta", args, input, rustc, checker)
}

/// The macro `nightly`: keeps the code on a nightly toolchain or a dev build, or
/// on the nightly of the date that `args` names.
pub fn nightly(args: Vec<TokenTree>, input: Vec<TokenTree>, rustc: Version, checker: &mut Checker) -> (out:
    Result<Vec<TokenTree>, MacroError>)
    ensures
        shown(out) == gated(
            "nightly"@,
            TokenTree::models(args@),
            TokenTree::models(input@),
            rustc,
            old(checker)@,
        ).result,
        final(checker)@ == gated(
            "nightly"@,
            TokenTree::models(args@),
            TokenTree::models(input@),
            rustc,
            old(checker)@,
        ).minimum,
{
    cfg("nightly", args, input, rustc, checker)
}

/// The macro `since`: keeps the code on toolchains from the bound that `args`
/// names onwards.
pub fn since(args: Vec<TokenTree>, input: Vec<TokenTree>, rustc: Version, checker: &mut Checker) -> (out:
    Result<Vec<TokenTree>, MacroError>)
    ensures
        shown(out) == gated(
            "since"@,
            TokenTree::models(args@),
            TokenTree::models(input@),
            rustc,
            old(checker)@,
        ).result,
        final(checker)@ == gated(
            "since"@,
            TokenTree::models(args@),
            TokenTree::models(input@),
            rustc,
            old(checker)@,
        ).minimum,
{
    cfg("since", args, input, rustc, checker)
}

/// The macro `before`: keeps the code on toolchains before the bound that
/// `args` names.
pub fn before(args: Vec<TokenTree>, input: Vec<TokenTree>, rustc: Version, checker: &mut Checker) -> (out:
    Result<Vec<TokenTree>, MacroError>)
    ensures
        shown(out) == gated(
            "before"@,
            TokenTree::models(args@),
            TokenTree::models(input@),
            rustc,
            old(checker)@,
        ).result,
        final(checker)@ == gated(
            "before"@,
            TokenTree::models(args@),
            TokenTree::models(input@),
            rustc,
            old(checker)@,
        ).minimum,
{
    cfg("before", args, input, rustc, checker)
}

/// The macro `not`: keeps the code where the selector in `args` does not hold.
pub fn not(args: Vec<TokenTree>, input: Vec<TokenTree>, rustc: Version, checker: &mut Checker) -> (out:
    Result<Vec<TokenTree>, MacroError>)
    ensures
        shown(out) == gated(
            "not"@,
            TokenTree::models(args@),
            TokenTree::models(input@),
            rustc,
            old(checker)@,
        ).result,
        final(checker)@ == gated(
            "not"@,
            TokenTree::models(args@),
            TokenTree::models(input@),
            rustc,
            old(checker)@,
        ).minimum,
{
    cfg("not", args, input, rustc, checker)
}

/// The macro `any`: keeps the code where one of the selectors in `args` holds.
pub fn any(args: Vec<TokenTree>, input: Vec<TokenTree>, rustc: Version, checker: &mut Checker) -> (out:
    Result<Vec<TokenTree>, MacroError>)
    ensures
        shown(out) == gated(
            "any"@,
            TokenTree::models(args@),
            TokenTree::models(input@),
            rustc,
            old(checker)@,
        ).result,
        final(checker)@ == gated(
            "any"@,
            TokenTree::models(args@),
            TokenTree::models(input@),
            rustc,
            old(checker)@,
        ).minimum,
{
    cfg("any", args, input, rustc, checker)
}

/// The macro `all`: keeps the code where every selector in `args` holds.
pub fn all(args: Vec<TokenTree>, input: Vec<TokenTree>, rustc: Version, checker: &mut Checker) -> (out:
    Result<Vec<TokenTree>, MacroError>)
    ensures
        shown(out) == gated(
            "all"@,
            TokenTree::models(args@),
            TokenTree::models(input@),
            rustc,
            old(checker)@,
        ).result,
        final(checker)@ == gated(
            "all"@,
            TokenTree::models(args@),
            TokenTree::models(input@),
            rustc,
            old(checker)@,
        ).minimum,
{
    cfg("all", args, input, rustc, checker)
}

/// The macro `attr`: where the selector in `args` holds, adds to the code the
/// attributes that follow the selector, or makes the function `const`.
pub fn attr(args: Vec<TokenTree>, input: Vec<TokenTree>, rustc: Version, checker: &mut Checker) -> (out:
    Result<Vec<TokenTree>, MacroError>)
    ensures
        shown(out) == attributed(
            TokenTree::models(args@),
            TokenTree::models(input@),
            rustc,
            old(checker)@,
        ).result,
        final(checker)@ == attributed(
            TokenTree::models(args@),
            TokenTree::models(input@),
            rustc,
            old(checker)@,
        ).minimum,
{
    crate::expand::attr(args, input, rustc, checker)
}

} // verus!
