//! The parts of a parsed recipe that resolution reads: expressions,
//! parameters, body lines, and the tables of names that are always in scope.

use vstd::prelude::*;
use crate::keyed::Keyed;
use crate::name::Name;

verus! {

/// An expression, as far as resolution reads it: the variables that it
/// mentions, in the order in which they occur.
#[derive(Debug, PartialEq, Eq)]
pub struct Expression {
    pub variables: Vec<Name>,
}

impl Expression {
    /// The variables that the expression mentions.
    pub fn variables(&self) -> (variables: &Vec<Name>)
        ensures
            variables@ == self.variables@,
    {
        &self.variables
    }
}

/// A parameter of a recipe, with the expression that gives its value when
/// the caller passes none.
#[derive(Debug, PartialEq, Eq)]
pub struct Parameter {
    pub name: Name,
    pub default: Option<Expression>,
}

impl Keyed for Parameter {
    open spec fn key_spec(&self) -> Seq<char> {
        self.name.text()
    }

    fn key(&self) -> (k: &str) {
        self.name.lexeme()
    }
}

/// A piece of a body line.
#[derive(Debug, PartialEq, Eq)]
pub enum Fragment {
    /// Text that is run as it stands.
    Text { text: String },
    /// An expression whose value is put into the line.
    Interpolation { expression: Expression },
}

/// A line of a recipe's body.
#[derive(Debug, PartialEq, Eq)]
pub struct Line {
    pub fragments: Vec<Fragment>,
    /// The line holds nothing but a comment.
    pub comment: bool,
}

impl Line {
    pub fn is_comment(&self) -> (comment: bool)
        ensures
            comment == self.comment,
    {
        self.comment
    }
}

/// A variable of the module and the expression that defines it.
#[derive(Debug, PartialEq, Eq)]
pub struct Assignment {
    pub name: Name,
    pub value: Expression,
}

impl Keyed for Assignment {
    open spec fn key_spec(&self) -> Seq<char> {
        self.name.text()
    }

    fn key(&self) -> (k: &str) {
        self.name.lexeme()
    }
}

/// A built-in variable, defined in every scope.
#[derive(Debug, PartialEq, Eq)]
pub struct Constant {
    pub name: String,
    pub value: String,
}

impl Keyed for Constant {
    open spec fn key_spec(&self) -> Seq<char> {
        self.name@
    }

    fn key(&self) -> (k: &str) {
        self.name.as_str()
    }
}

/// The settings that resolution reads.
#[derive(Debug, PartialEq, Eq)]
pub struct Settings {
    /// Comment lines of a body are not checked for undefined variables.
    pub ignore_comments: bool,
}

} // verus!
