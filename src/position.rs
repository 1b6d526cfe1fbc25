use vstd::prelude::*;

verus! {

/// A point in source text, as a value.
pub struct PositionView {
    pub index: nat,
    pub line: nat,
    pub column: nat,
    pub filename: Seq<char>,
    pub script: Seq<char>,
}

/// An inclusive pair of points, as a value.
pub struct RangeView {
    pub min: PositionView,
    pub max: PositionView,
}

/// A point in source text: index, 0-based line and column, and the text it
/// belongs to.
#[derive(Debug, PartialEq)]
pub struct Position {
    pub index: usize,
    pub line: usize,
    pub column: usize,
    pub filename: String,
    pub script: String,
}

impl View for Position {
    type V = PositionView;

    open spec fn view(&self) -> PositionView {
        PositionView {
            index: self.index as nat,
            line: self.line as nat,
            column: self.column as nat,
            filename: self.filename@,
            script: self.script@,
        }
    }
}

impl Position {
    pub fn new(index: usize, line: usize, column: usize, filename: String, script: String) -> (r:
        Position)
        ensures
            r.index == index,
            r.line == line,
            r.column == column,
            r.filename@ == filename@,
            r.script@ == script@,
    {
        Position { index, line, column, filename, script }
    }
}

impl Clone for Position {
    fn clone(&self) -> (r: Self)
        ensures
            r@ == self@,
    {
        Position {
            index: self.index,
            line: self.line,
            column: self.column,
            filename: self.filename.clone(),
            script: self.script.clone(),
        }
    }
}

/// An inclusive span of source text, from `min` to `max`.
#[derive(Debug, PartialEq)]
pub struct Range {
    pub min: Position,
    pub max: Position,
}

impl View for Range {
    type V = RangeView;

    open spec fn view(&self) -> RangeView {
        RangeView { min: self.min@, max: self.max@ }
    }
}

/// The position that stands for "no location": all zero, empty names.
pub open spec fn void_position() -> PositionView {
    PositionView { index: 0, line: 0, column: 0, filename: Seq::empty(), script: Seq::empty() }
}

impl Range {
    pub fn new(min: Position, max: Position) -> (r: Range)
        ensures
            r@ == (RangeView { min: min@, max: max@ }),
    {
        Range { min, max }
    }

    /// The sentinel span of a synthetic or absent location.
    pub fn new_void() -> (r: Range)
        ensures
            r@ == (RangeView { min: void_position(), max: void_position() }),
    {
        Range::new(
            Position::new(0, 0, 0, String::new(), String::new()),
            Position::new(0, 0, 0, String::new(), String::new()),
        )
    }
}

impl Clone for Range {
    fn clone(&self) -> (r: Self)
        ensures
            r@ == self@,
    {
        Range { min: self.min.clone(), max: self.max.clone() }
    }
}

/// Line and column of index `i` of text `t`. Advancing moves one column on;
/// arriving on a line feed moves to the next line, at column 0. Past the end
/// the character is taken as a space.
pub open spec fn line_col(t: Seq<char>, i: nat) -> (nat, nat)
    decreases i,
{
    if i == 0 {
        (0, 0)
    } else {
        let (l, c) = line_col(t, (i - 1) as nat);
        if i < t.len() && t[i as int] == '\n' {
            (l + 1, 0)
        } else {
            (l, c + 1)
        }
    }
}

/// The position of index `i` in text `t` of file `f`.
pub open spec fn pos_at(f: Seq<char>, t: Seq<char>, i: nat) -> PositionView {
    PositionView {
        index: i,
        line: line_col(t, i).0,
        column: line_col(t, i).1,
        filename: f,
        script: t,
    }
}

/// The span from index `a` to index `b` of text `t`.
pub open spec fn span(f: Seq<char>, t: Seq<char>, a: nat, b: nat) -> RangeView {
    RangeView { min: pos_at(f, t, a), max: pos_at(f, t, b) }
}

/// Line and column never exceed the index.
pub proof fn lemma_line_col_bounded(t: Seq<char>, i: nat)
    ensures
        line_col(t, i).0 <= i,
        line_col(t, i).1 <= i,
    decreases i,
{
    if i > 0 {
        lemma_line_col_bounded(t, (i - 1) as nat);
    }
}

} // verus!
