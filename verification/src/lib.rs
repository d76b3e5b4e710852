//! A verified front end for a small expression language: a character-level
//! scanner that turns source text into typed tokens, and a precedence-climbing
//! parser that builds an expression tree from them.  Nonfatal findings are
//! collected as diagnostics beside the `Result`-based fatal error channel.
use vstd::prelude::*;

pub mod token;
pub mod tokenizer;
pub mod expression;
pub mod parser;
pub mod roundtrip;

verus! {

use crate::token::TokenPosition;

/// A named source text.  The scanner reads the text; the name is carried
/// along for reporting.
#[derive(Debug, Clone, Copy)]
pub struct Source<'n, 's> {
    pub name: &'n str,
    pub text: &'s str,
}

impl<'n, 's> Source<'n, 's> {
    pub fn new(name: &'n str, text: &'s str) -> (r: Self)
        ensures
            r.name@ == name@,
            r.text@ == text@,
    {
        Self { name, text }
    }

    pub fn name(&self) -> (r: &str)
        ensures
            r@ == self.name@,
    {
        self.name
    }

    pub fn text(&self) -> (r: &str)
        ensures
            r@ == self.text@,
    {
        self.text
    }

    pub open spec fn spec_name(&self) -> Seq<char> {
        self.name@
    }

    pub open spec fn spec_text(&self) -> Seq<char> {
        self.text@
    }
}

/// How serious a diagnostic is.
#[derive(Debug, Clone, Copy, PartialEq, Eq, Structural)]
pub enum DiagnosticLevel {
    Debug,
    Info,
    Warning,
    Error,
}

/// The closed set of nonfatal findings the scanner can report.
#[derive(Debug, Clone, PartialEq, Eq, Structural)]
pub enum DiagnosticType {
    UnclosedMultilineComment,
}

impl DiagnosticType {
    pub fn level(&self) -> (r: DiagnosticLevel)
        ensures
            r == self.spec_level(),
    {
        match self {
            DiagnosticType::UnclosedMultilineComment => DiagnosticLevel::Info,
        }
    }

    pub open spec fn spec_level(&self) -> DiagnosticLevel {
        match self {
            DiagnosticType::UnclosedMultilineComment => DiagnosticLevel::Info,
        }
    }
}

/// A nonfatal finding: its kind and the position it was noticed at.
/// Diagnostics never abort scanning; they accumulate beside the token stream.
#[derive(Debug, Clone)]
pub struct Diagnostic {
    pub ty: DiagnosticType,
    pub position: TokenPosition,
}

impl Diagnostic {
    pub fn new(ty: DiagnosticType, position: TokenPosition) -> (r: Self)
        ensures
            r.ty == ty,
            r.position == position,
    {
        Self { ty, position }
    }

    pub fn ty(&self) -> (r: &DiagnosticType)
        ensures
            *r == self.ty,
    {
        &self.ty
    }

    pub fn position(&self) -> (r: &TokenPosition)
        ensures
            *r == self.position,
    {
        &self.position
    }

    pub open spec fn spec_ty(&self) -> DiagnosticType {
        self.ty
    }

    pub open spec fn spec_position(&self) -> TokenPosition {
        self.position
    }
}

} // verus!
