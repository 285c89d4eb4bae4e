//! The document value model: a position-tagged, immutable tree of nil, text,
//! dictionary, table, composition and pattern values.

use vstd::prelude::*;
use crate::chars::string_from_chars;

verus! {

/// A source location: the line and column on which a construct begins.
/// Both are 1-based.
#[derive(Clone, Copy, PartialEq, Eq, Structural, Debug)]
pub struct Position {
    pub line: usize,
    pub column: usize,
}

/// One element of a composition: either a nested value or an explicit
/// preserved separator between two values.
#[derive(Debug)]
pub enum Element {
    Solid(ParsedValue),
    Space,
}

/// A parsed document value. Every variant carries the source position at
/// which the construct begins.
#[derive(Debug)]
pub enum ParsedValue {
    /// Explicit absence of content (surface form `~`).
    Nil(Position),
    /// A normalized text run, stored as its characters.
    Text(Vec<char>, Position),
    /// An ordered mapping from unique string keys to values.
    Dictionary(DictionaryValue, Position),
    /// A row-major grid of cells.
    Table(TableValue, Position),
    /// An ordered run of values and explicit separators.
    Composition(Vec<Element>, Position),
    /// A named invocation with ordered positional arguments.
    Pattern(PatternValue, Position),
}

/// A pattern (tag): a name and its ordered positional arguments.
#[derive(Debug)]
pub struct PatternValue {
    pub name: Vec<char>,
    pub arguments: Vec<ParsedValue>,
}

/// A row-major grid of cells. For every table the cell count equals
/// `rows * columns`, and a table with zero rows or zero columns is the empty
/// table (both counts zero and no cells).
#[derive(Debug)]
pub struct TableValue {
    rows: usize,
    columns: usize,
    cells: Vec<ParsedValue>,
}

/// An ordered dictionary whose keys are unique.
#[derive(Debug)]
pub struct DictionaryValue {
    entries: Vec<(Vec<char>, ParsedValue)>,
}

impl ParsedValue {
    pub open spec fn spec_position(self) -> Position {
        match self {
            ParsedValue::Nil(at) => at,
            ParsedValue::Text(_, at) => at,
            ParsedValue::Dictionary(_, at) => at,
            ParsedValue::Table(_, at) => at,
            ParsedValue::Composition(_, at) => at,
            ParsedValue::Pattern(_, at) => at,
        }
    }

    /// The source position at which this value begins.
    pub fn position(&self) -> (p: Position)
        ensures
            p == self.spec_position(),
    {
        match self {
            ParsedValue::Nil(at) => *at,
            ParsedValue::Text(_, at) => *at,
            ParsedValue::Dictionary(_, at) => *at,
            ParsedValue::Table(_, at) => *at,
            ParsedValue::Composition(_, at) => *at,
            ParsedValue::Pattern(_, at) => *at,
        }
    }

    pub fn is_nil(&self) -> (r: bool)
        ensures
            r == (self is Nil),
    {
        matches!(self, ParsedValue::Nil(_))
    }

    pub fn is_text(&self) -> (r: bool)
        ensures
            r == (self is Text),
    {
        matches!(self, ParsedValue::Text(_, _))
    }

    pub fn is_dictionary(&self) -> (r: bool)
        ensures
            r == (self is Dictionary),
    {
        matches!(self, ParsedValue::Dictionary(_, _))
    }

    pub fn is_table(&self) -> (r: bool)
        ensures
            r == (self is Table),
    {
        matches!(self, ParsedValue::Table(_, _))
    }

    pub fn is_composition(&self) -> (r: bool)
        ensures
            r == (self is Composition),
    {
        matches!(self, ParsedValue::Composition(_, _))
    }

    pub fn is_pattern(&self) -> (r: bool)
        ensures
            r == (self is Pattern),
    {
        matches!(self, ParsedValue::Pattern(_, _))
    }

    /// The content of a text value, as a fresh string; `None` for any other
    /// kind of value.
    pub fn as_text(&self) -> (r: Option<String>)
        ensures
            r is Some <==> self is Text,
            self is Text ==> r->0@ == self->Text_0@,
    {
        match self {
            ParsedValue::Text(t, _) => Some(string_from_chars(t)),
            _ => None,
        }
    }

    pub fn as_table(&self) -> (r: Option<&TableValue>)
        ensures
            r is Some <==> self is Table,
            self is Table ==> *r->0 == self->Table_0,
    {
        match self {
            ParsedValue::Table(t, _) => Some(t),
            _ => None,
        }
    }

    pub fn as_dictionary(&self) -> (r: Option<&DictionaryValue>)
        ensures
            r is Some <==> self is Dictionary,
            self is Dictionary ==> *r->0 == self->Dictionary_0,
    {
        match self {
            ParsedValue::Dictionary(d, _) => Some(d),
            _ => None,
        }
    }

    pub fn as_pattern(&self) -> (r: Option<&PatternValue>)
        ensures
            r is Some <==> self is Pattern,
            self is Pattern ==> *r->0 == self->Pattern_0,
    {
        match self {
            ParsedValue::Pattern(p, _) => Some(p),
            _ => None,
        }
    }
}

impl PatternValue {
    /// The pattern's name, as a fresh string.
    pub fn name(&self) -> (r: String)
        ensures
            r@ == self.name@,
    {
        string_from_chars(&self.name)
    }

    /// The number of positional arguments.
    pub fn len(&self) -> (n: usize)
        ensures
            n == self.arguments@.len(),
    {
        self.arguments.len()
    }

    pub fn has_arguments(&self) -> (r: bool)
        ensures
            r == (self.arguments@.len() > 0),
    {
        self.arguments.len() > 0
    }

    /// Indexed access to the positional arguments.
    pub fn get(&self, index: usize) -> (r: Option<&ParsedValue>)
        ensures
            r is Some <==> index < self.arguments@.len(),
            index < self.arguments@.len() ==> *r->0 == self.arguments@[index as int],
    {
        if index < self.arguments.len() {
            Some(&self.arguments[index])
        } else {
            None
        }
    }
}

impl TableValue {
    #[verifier::type_invariant]
    spec fn grid_invariant(self) -> bool {
        &&& self.cells@.len() == self.rows * self.columns
        &&& (self.rows == 0 ==> self.columns == 0)
        &&& (self.columns == 0 ==> self.rows == 0)
    }

    pub closed spec fn rows_spec(self) -> usize {
        self.rows
    }

    pub closed spec fn columns_spec(self) -> usize {
        self.columns
    }

    pub closed spec fn cells_spec(self) -> Seq<ParsedValue> {
        self.cells@
    }

    /// Height fact used by recursive definitions that descend into cells.
    pub proof fn cells_height(&self)
        ensures
            decreases_to!(*self => self.cells_spec()),
    {
        assert(decreases_to!(*self => self.cells));
        assert(decreases_to!(self.cells => self.cells@));
    }

    pub(crate) fn new(rows: usize, columns: usize, cells: Vec<ParsedValue>) -> (t: TableValue)
        requires
            cells@.len() == rows * columns,
            rows == 0 ==> columns == 0,
            columns == 0 ==> rows == 0,
        ensures
            t.rows_spec() == rows,
            t.columns_spec() == columns,
            t.cells_spec() == cells@,
    {
        TableValue { rows, columns, cells }
    }

    pub fn rows(&self) -> (n: usize)
        ensures
            n == self.rows_spec(),
            n == 0 ==> self.columns_spec() == 0,
    {
        proof {
            use_type_invariant(self);
        }
        self.rows
    }

    pub fn columns(&self) -> (n: usize)
        ensures
            n == self.columns_spec(),
            n == 0 ==> self.rows_spec() == 0,
    {
        proof {
            use_type_invariant(self);
        }
        self.columns
    }

    /// The total number of cells. Every table is a full grid: the count
    /// equals the product of the row and column counts.
    pub fn len(&self) -> (n: usize)
        ensures
            n == self.cells_spec().len(),
            n == self.rows_spec() * self.columns_spec(),
    {
        proof {
            use_type_invariant(self);
        }
        self.cells.len()
    }

    pub fn is_empty(&self) -> (r: bool)
        ensures
            r == (self.cells_spec().len() == 0),
    {
        self.cells.len() == 0
    }

    /// Row-major access to the cells: index `r * columns + c` holds the cell
    /// in row `r`, column `c`.
    pub fn cell(&self, index: usize) -> (c: &ParsedValue)
        requires
            index < self.cells_spec().len(),
        ensures
            *c == self.cells_spec()[index as int],
    {
        &self.cells[index]
    }
}

impl DictionaryValue {
    #[verifier::type_invariant]
    spec fn keys_unique_invariant(self) -> bool {
        forall|i: int, j: int|
            0 <= i < j < self.entries@.len() ==> self.entries@[i].0@ != self.entries@[j].0@
    }

    pub closed spec fn entries_spec(self) -> Seq<(Vec<char>, ParsedValue)> {
        self.entries@
    }

    pub(crate) fn new(entries: Vec<(Vec<char>, ParsedValue)>) -> (d: DictionaryValue)
        requires
            forall|i: int, j: int|
                0 <= i < j < entries@.len() ==> entries@[i].0@ != entries@[j].0@,
        ensures
            d.entries_spec() == entries@,
    {
        DictionaryValue { entries }
    }

    /// The number of entries. Keys are unique within one dictionary.
    pub fn len(&self) -> (n: usize)
        ensures
            n == self.entries_spec().len(),
            forall|i: int, j: int|
                0 <= i < j < self.entries_spec().len()
                    ==> self.entries_spec()[i].0@ != self.entries_spec()[j].0@,
    {
        proof {
            use_type_invariant(self);
        }
        self.entries.len()
    }

    pub fn is_empty(&self) -> (r: bool)
        ensures
            r == (self.entries_spec().len() == 0),
    {
        self.entries.len() == 0
    }

    /// The key of the entry at `index`, as a fresh string. Entries keep
    /// insertion order.
    pub fn key(&self, index: usize) -> (r: String)
        requires
            index < self.entries_spec().len(),
        ensures
            r@ == self.entries_spec()[index as int].0@,
    {
        string_from_chars(&self.entries[index].0)
    }

    /// The value of the entry at `index`. Entries keep insertion order.
    pub fn value(&self, index: usize) -> (r: &ParsedValue)
        requires
            index < self.entries_spec().len(),
        ensures
            *r == self.entries_spec()[index as int].1,
    {
        &self.entries[index].1
    }
}

} // verus!
