//! Positions in a document and the ecosystem-independent view of a parsed
//! dependency.

use vstd::prelude::*;

verus! {

/// A position in a text document: zero-based line and UTF-16 offset.
#[derive(Debug, Clone, Copy, PartialEq, Eq, Structural, Default)]
pub struct Position {
    pub line: u32,
    pub character: u32,
}

/// A range in a text document, `end` inclusive for the queries here.
#[derive(Debug, Clone, Copy, PartialEq, Eq, Structural, Default)]
pub struct TextRange {
    pub start: Position,
    pub end: Position,
}

impl Position {
    pub fn new(line: u32, character: u32) -> (r: Position)
        ensures
            r.line == line,
            r.character == character,
    {
        Position { line, character }
    }
}

impl TextRange {
    pub fn new(start: Position, end: Position) -> (r: TextRange)
        ensures
            r.start == start,
            r.end == end,
    {
        TextRange { start, end }
    }
}

/// `pos` lies within `range`, both ends included.
pub open spec fn spec_position_in_range(pos: Position, range: TextRange) -> bool {
    &&& (pos.line > range.start.line || (pos.line == range.start.line && pos.character
        >= range.start.character))
    &&& (pos.line < range.end.line || (pos.line == range.end.line && pos.character
        <= range.end.character))
}

/// Whether `pos` lies within `range`, both ends included.
pub fn position_in_range(pos: Position, range: TextRange) -> (r: bool)
    ensures
        r == spec_position_in_range(pos, range),
{
    (pos.line > range.start.line || (pos.line == range.start.line && pos.character
        >= range.start.character)) && (pos.line < range.end.line || (pos.line == range.end.line
        && pos.character <= range.end.character))
}

/// A dependency declaration as every ecosystem reports it.
#[derive(Debug)]
pub struct Dependency {
    pub name: String,
    pub name_range: TextRange,
    pub version_req: Option<String>,
    pub version_range: Option<TextRange>,
    /// Resolved from the ecosystem's registry (not a git or path source).
    pub is_registry: bool,
}

impl Dependency {
    pub fn name(&self) -> (r: &str)
        ensures
            r@ == self.name@,
    {
        self.name.as_str()
    }
}

} // verus!
