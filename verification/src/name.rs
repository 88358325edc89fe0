//! Located identifiers and the paths built from them.

use vstd::prelude::*;
use crate::error::{CompileError, CompileErrorKind};

verus! {

/// An identifier as it stands in the source: its text and where it was read.
#[derive(Debug, PartialEq, Eq)]
pub struct Name {
    pub lexeme: String,
    pub line: usize,
    pub column: usize,
    pub offset: usize,
    pub length: usize,
}

impl Name {
    /// The identifier with the given text, read at the given line and
    /// column, `offset` bytes into the source and `length` bytes long.
    pub fn new(lexeme: &str, line: usize, column: usize, offset: usize, length: usize) -> (name:
        Name)
        ensures
            name.text() == lexeme@,
            name.line == line,
            name.column == column,
            name.offset == offset,
            name.length == length,
    {
        Name { lexeme: lexeme.to_owned(), line, column, offset, length }
    }

    /// The text of the identifier.
    pub open spec fn text(&self) -> Seq<char> {
        self.lexeme@
    }

    /// The text of the identifier.
    pub fn lexeme(&self) -> (text: &str)
        ensures
            text@ == self.text(),
    {
        self.lexeme.as_str()
    }

    /// An error of the given kind, located at this identifier.
    pub fn error(&self, kind: CompileErrorKind) -> (error: CompileError)
        ensures
            error.token == *self,
            error.kind == kind,
    {
        CompileError { token: self.clone(), kind }
    }
}

impl Clone for Name {
    fn clone(&self) -> (copy: Name)
        ensures
            copy == *self,
    {
        Name {
            lexeme: self.lexeme.clone(),
            line: self.line,
            column: self.column,
            offset: self.offset,
            length: self.length,
        }
    }
}

/// The texts of a sequence of strings.
pub open spec fn string_views(strings: Seq<String>) -> Seq<Seq<char>> {
    Seq::new(strings.len(), |i: int| strings[i]@)
}

/// The texts of a sequence with one more string at its end.
pub proof fn lemma_string_views_push(strings: Seq<String>, last: String)
    ensures
        string_views(strings.push(last)) == string_views(strings).push(last@),
{
    assert(string_views(strings.push(last)) =~= string_views(strings).push(last@));
}

/// A path to a recipe: the names of the modules to go through, then the name
/// of the recipe. It always has at least one segment.
#[derive(Debug, PartialEq, Eq)]
pub struct Namepath {
    first: Name,
    rest: Vec<Name>,
}

impl Namepath {
    /// The segments of the path, in order.
    pub closed spec fn view(&self) -> Seq<Name> {
        seq![self.first] + self.rest@
    }

    /// The last segment: the name of the recipe itself.
    pub open spec fn leaf(&self) -> Name {
        self@.last()
    }

    /// A path is never empty.
    pub broadcast proof fn lemma_nonempty(&self)
        ensures
            #[trigger] self@.len() >= 1,
    {
    }

    /// The path of a single segment.
    pub fn new(name: Name) -> (path: Namepath)
        ensures
            path@ == seq![name],
    {
        let path = Namepath { first: name, rest: Vec::new() };
        assert(path@ =~= seq![name]);
        path
    }

    /// Appends a segment, which becomes the leaf.
    pub fn push(&mut self, name: Name)
        ensures
            final(self)@ == old(self)@.push(name),
    {
        self.rest.push(name);
        assert(self@ =~= old(self)@.push(name));
    }

    /// The first segment and the segments after it.
    pub fn split_first(&self) -> (parts: (&Name, &[Name]))
        ensures
            *parts.0 == self@[0],
            parts.1@ == self@.drop_first(),
    {
        assert(self@.drop_first() =~= self.rest@);
        (&self.first, self.rest.as_slice())
    }

    /// The last segment.
    pub fn last(&self) -> (name: &Name)
        ensures
            *name == self.leaf(),
    {
        let n = self.rest.len();
        if n == 0 {
            &self.first
        } else {
            &self.rest[n - 1]
        }
    }
}

impl Clone for Namepath {
    fn clone(&self) -> (copy: Namepath)
        ensures
            copy@ == self@,
    {
        let mut rest: Vec<Name> = Vec::new();
        let mut i: usize = 0;
        while i < self.rest.len()
            invariant
                i <= self.rest@.len(),
                rest@ == self.rest@.take(i as int),
            decreases self.rest@.len() - i,
        {
            rest.push(self.rest[i].clone());
            assert(rest@ =~= self.rest@.take(i + 1));
            i += 1;
        }
        assert(rest@ =~= self.rest@);
        Namepath { first: self.first.clone(), rest }
    }
}

} // verus!
