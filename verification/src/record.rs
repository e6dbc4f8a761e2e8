//! One row of the reference data: its fields, the columns that carry them,
//! and the decoding of a row of cells into a record.

use vstd::prelude::*;
use vstd::string::StringExecFns;
use crate::text::{chars_of, decode_multi_value, multi_value};

verus! {

/// The columns of the table that a record is read from, in the order of its
/// fields.
#[derive(Clone, Copy, Debug, PartialEq, Eq, Structural)]
pub enum Column {
    Name,
    Notes,
    Url,
    Level,
    Example,
    Platform,
    Type,
    Os,
    Language,
    Category,
}

/// Why a row is no record.
#[derive(Clone, Copy, Debug, PartialEq, Eq, Structural)]
pub enum DecodeError {
    /// The row has no cell for a column that a record needs.
    MissingField(Column),
    /// Two cells of the row stand under the same column.
    DuplicateField(Column),
    /// The cell under the column is no value of the field's type.
    TypeMismatch(Column),
}

/// One row of the reference data.
#[derive(Clone, Debug, PartialEq, Eq)]
pub struct CsvRecord {
    pub name: String,
    pub notes: String,
    pub url: String,
    pub level: u8,
    pub example: Option<String>,
    pub platform: Vec<String>,
    pub type_: Vec<String>,
    pub os: Vec<String>,
    pub language: Vec<String>,
    pub category: Vec<String>,
}

/// What a [`CsvRecord`] holds, as texts.
pub struct Record {
    pub name: Seq<char>,
    pub notes: Seq<char>,
    pub url: Seq<char>,
    pub level: u8,
    pub example: Option<Seq<char>>,
    pub platform: Seq<Seq<char>>,
    pub type_: Seq<Seq<char>>,
    pub os: Seq<Seq<char>>,
    pub language: Seq<Seq<char>>,
    pub category: Seq<Seq<char>>,
}

impl View for CsvRecord {
    type V = Record;

    open spec fn view(&self) -> Record {
        Record {
            name: self.name@,
            notes: self.notes@,
            url: self.url@,
            level: self.level,
            example: self.example.deep_view(),
            platform: self.platform.deep_view(),
            type_: self.type_.deep_view(),
            os: self.os.deep_view(),
            language: self.language.deep_view(),
            category: self.category.deep_view(),
        }
    }
}

impl DeepView for CsvRecord {
    type V = Record;

    open spec fn deep_view(&self) -> Record {
        self@
    }
}

impl Column {
    /// A record cannot be made without a cell under this column.
    pub open spec fn is_required(self) -> bool {
        self == Column::Name || self == Column::Notes || self == Column::Url || self
            == Column::Level
    }

    /// The cell under this column holds several values.
    pub open spec fn is_multi_valued(self) -> bool {
        self == Column::Platform || self == Column::Type || self == Column::Os || self
            == Column::Language || self == Column::Category
    }
}

impl Record {
    /// The values of the field that is read from a column of several values.
    pub open spec fn values(self, column: Column) -> Seq<Seq<char>> {
        match column {
            Column::Platform => self.platform,
            Column::Type => self.type_,
            Column::Os => self.os,
            Column::Language => self.language,
            Column::Category => self.category,
            _ => Seq::empty(),
        }
    }
}

/// The name of a column, as a header writes it and as a record shows it.
pub open spec fn column_name(column: Column) -> Seq<char> {
    match column {
        Column::Name => "Name"@,
        Column::Notes => "Notes"@,
        Column::Url => "URL"@,
        Column::Level => "Level"@,
        Column::Example => "Example"@,
        Column::Platform => "Platform"@,
        Column::Type => "Type"@,
        Column::Os => "OS"@,
        Column::Language => "Language"@,
        Column::Category => "Category"@,
    }
}

/// A failure of a row in words.
pub open spec fn decode_error_text(error: DecodeError) -> Seq<char> {
    match error {
        DecodeError::MissingField(column) => "missing field `"@ + column_name(column) + "`"@,
        DecodeError::DuplicateField(column) => "duplicate field `"@ + column_name(column) + "`"@,
        DecodeError::TypeMismatch(column) => "type mismatch in field `"@ + column_name(column)
            + "`"@,
    }
}

/// `header` reads `URL`, in capitals or small letters.
pub open spec fn names_url(header: Seq<char>) -> bool {
    &&& header.len() == 3
    &&& (header[0] == 'U' || header[0] == 'u')
    &&& (header[1] == 'R' || header[1] == 'r')
    &&& (header[2] == 'L' || header[2] == 'l')
}

/// `header` reads `OS`, in capitals or small letters.
pub open spec fn names_os(header: Seq<char>) -> bool {
    &&& header.len() == 2
    &&& (header[0] == 'O' || header[0] == 'o')
    &&& (header[1] == 'S' || header[1] == 's')
}

/// The column that a header cell names, if it names one. `URL` and `OS` are
/// known in any mix of capitals and small letters, the others only as
/// [`column_name`] writes them.
pub open spec fn column_of(header: Seq<char>) -> Option<Column> {
    if header == "Name"@ {
        Some(Column::Name)
    } else if header == "Notes"@ {
        Some(Column::Notes)
    } else if names_url(header) {
        Some(Column::Url)
    } else if header == "Level"@ {
        Some(Column::Level)
    } else if header == "Example"@ {
        Some(Column::Example)
    } else if header == "Platform"@ {
        Some(Column::Platform)
    } else if header == "Type"@ {
        Some(Column::Type)
    } else if names_os(header) {
        Some(Column::Os)
    } else if header == "Language"@ {
        Some(Column::Language)
    } else if header == "Category"@ {
        Some(Column::Category)
    } else {
        None
    }
}

/// The columns that the cells of a header row name, cell by cell.
pub open spec fn columns_of(header: Seq<Seq<char>>) -> Seq<Option<Column>> {
    header.map_values(|cell: Seq<char>| column_of(cell))
}

/// The value of a digit in the given radix, 10 or 16.
pub open spec fn digit_value(c: char, radix: nat) -> Option<nat> {
    if '0' <= c && c <= '9' {
        Some((c as int - '0' as int) as nat)
    } else if radix == 16 && 'a' <= c && c <= 'f' {
        Some((c as int - 'a' as int + 10) as nat)
    } else if radix == 16 && 'A' <= c && c <= 'F' {
        Some((c as int - 'A' as int + 10) as nat)
    } else {
        None
    }
}

/// The number that a run of digits writes, where all of them are digits.
/// The empty run writes 0.
pub open spec fn digits_value(digits: Seq<char>, radix: nat) -> Option<nat>
    decreases digits.len(),
{
    if digits.len() == 0 {
        Some(0)
    } else {
        match (digits_value(digits.drop_last(), radix), digit_value(digits.last(), radix)) {
            (Some(high), Some(low)) => Some(high * radix + low),
            _ => None,
        }
    }
}

/// The number that `text` writes: at least one digit, with or without a `+`
/// in front.
pub open spec fn unsigned(text: Seq<char>, radix: nat) -> Option<nat> {
    let digits = if text.len() > 0 && text[0] == '+' {
        text.drop_first()
    } else {
        text
    };
    if digits.len() == 0 {
        None
    } else {
        digits_value(digits, radix)
    }
}

/// The level that a cell writes, if it writes one: a number from 0 to 255,
/// in decimal, or in hexadecimal after the prefix `0x`.
pub open spec fn level_of(cell: Seq<char>) -> Option<u8> {
    let number = if cell.len() >= 2 && cell[0] == '0' && cell[1] == 'x' {
        unsigned(cell.skip(2), 16)
    } else {
        unsigned(cell, 10)
    };
    match number {
        Some(n) => if n <= 255 {
            Some(n as u8)
        } else {
            None
        },
        None => None,
    }
}

/// The first of the first `width` cells that stands under `column`.
pub open spec fn position(columns: Seq<Option<Column>>, width: int, column: Column) -> Option<int>
    decreases width,
{
    if width <= 0 {
        None
    } else {
        match position(columns, width - 1, column) {
            Some(at) => Some(at),
            None => if columns[width - 1] == Some(column) {
                Some(width - 1)
            } else {
                None
            },
        }
    }
}

/// What is wrong with the cell at `at`, seen after the cells before it: it
/// stands under a column that an earlier cell stands under, or it is the
/// level and writes none.
pub open spec fn fault_at(
    columns: Seq<Option<Column>>,
    cells: Seq<Seq<char>>,
    at: int,
) -> Option<DecodeError> {
    match columns[at] {
        None => None,
        Some(column) => if position(columns, at, column) is Some {
            Some(DecodeError::DuplicateField(column))
        } else if column == Column::Level && level_of(cells[at]) is None {
            Some(DecodeError::TypeMismatch(column))
        } else {
            None
        },
    }
}

/// The fault of the first faulty cell among the first `width`.
pub open spec fn first_fault(
    columns: Seq<Option<Column>>,
    cells: Seq<Seq<char>>,
    width: int,
) -> Option<DecodeError>
    decreases width,
{
    if width <= 0 {
        None
    } else {
        match first_fault(columns, cells, width - 1) {
            Some(fault) => Some(fault),
            None => fault_at(columns, cells, width - 1),
        }
    }
}

/// The first required column, in the order of the fields, that none of the
/// first `width` cells stands under.
pub open spec fn first_missing(columns: Seq<Option<Column>>, width: int) -> Option<Column> {
    if position(columns, width, Column::Name) is None {
        Some(Column::Name)
    } else if position(columns, width, Column::Notes) is None {
        Some(Column::Notes)
    } else if position(columns, width, Column::Url) is None {
        Some(Column::Url)
    } else if position(columns, width, Column::Level) is None {
        Some(Column::Level)
    } else {
        None
    }
}

/// The cell under `column`, if the row has one.
pub open spec fn cell_of(
    columns: Seq<Option<Column>>,
    cells: Seq<Seq<char>>,
    width: int,
    column: Column,
) -> Option<Seq<char>> {
    match position(columns, width, column) {
        Some(at) => Some(cells[at]),
        None => None,
    }
}

/// An optional text: none where there is no cell or the cell is empty.
pub open spec fn optional_text(cell: Option<Seq<char>>) -> Option<Seq<char>> {
    match cell {
        Some(text) => if text.len() > 0 {
            Some(text)
        } else {
            None
        },
        None => None,
    }
}

/// The values of a cell of several values: none where there is no cell.
pub open spec fn list_of(cell: Option<Seq<char>>) -> Seq<Seq<char>> {
    match cell {
        Some(text) => multi_value(text),
        None => Seq::empty(),
    }
}

/// How many cells of a row stand under a column: as many as the shorter of
/// the header and the row has.
pub open spec fn row_width(columns: Seq<Option<Column>>, cells: Seq<Seq<char>>) -> int {
    if columns.len() <= cells.len() {
        columns.len() as int
    } else {
        cells.len() as int
    }
}

/// The record that a row of cells writes under the given columns, or why it
/// writes none. The cells are taken from left to right: the first faulty
/// cell decides the failure; after that, the first required column without
/// a cell does. Cells under no known column are passed over.
pub open spec fn row_record(columns: Seq<Option<Column>>, cells: Seq<Seq<char>>) -> Result<
    Record,
    DecodeError,
> {
    let width = row_width(columns, cells);
    match first_fault(columns, cells, width) {
        Some(fault) => Err(fault),
        None => match first_missing(columns, width) {
            Some(column) => Err(DecodeError::MissingField(column)),
            None => Ok(
                Record {
                    name: cell_of(columns, cells, width, Column::Name).unwrap(),
                    notes: cell_of(columns, cells, width, Column::Notes).unwrap(),
                    url: cell_of(columns, cells, width, Column::Url).unwrap(),
                    level: level_of(cell_of(columns, cells, width, Column::Level).unwrap()).unwrap(),
                    example: optional_text(cell_of(columns, cells, width, Column::Example)),
                    platform: list_of(cell_of(columns, cells, width, Column::Platform)),
                    type_: list_of(cell_of(columns, cells, width, Column::Type)),
                    os: list_of(cell_of(columns, cells, width, Column::Os)),
                    language: list_of(cell_of(columns, cells, width, Column::Language)),
                    category: list_of(cell_of(columns, cells, width, Column::Category)),
                },
            ),
        },
    }
}

/// A byte where the number is one.
pub open spec fn in_byte(number: Option<nat>) -> Option<u8> {
    match number {
        Some(n) => if n <= 255 {
            Some(n as u8)
        } else {
            None
        },
        None => None,
    }
}

/// The columns' names are told apart: each names its own column.
pub proof fn lemma_column_of_name(column: Column)
    ensures
        column_of(column_name(column)) == Some(column),
{
    reveal_strlit("Name");
    reveal_strlit("Notes");
    reveal_strlit("URL");
    reveal_strlit("Level");
    reveal_strlit("Example");
    reveal_strlit("Platform");
    reveal_strlit("Type");
    reveal_strlit("OS");
    reveal_strlit("Language");
    reveal_strlit("Category");
    let name = column_name(column);
    assert(name.len() >= 2);
    assert(name[0] == 'N' ==> name[1] == 'a' || name[1] == 'o');
    assert(name[0] == 'L' ==> name[1] == 'e' || name[1] == 'a');
}

/// Where the first digits of a run write no number, the run writes none;
/// where both write one, that of the run is no smaller.
pub proof fn lemma_digits_prefix(digits: Seq<char>, k: int, radix: nat)
    requires
        0 <= k <= digits.len(),
        radix >= 1,
    ensures
        digits_value(digits.take(k), radix) is None ==> digits_value(digits, radix) is None,
        digits_value(digits, radix) is Some ==> digits_value(digits.take(k), radix).unwrap()
            <= digits_value(digits, radix).unwrap(),
    decreases digits.len(),
{
    if k == digits.len() {
        assert(digits.take(k) =~= digits);
    } else {
        let front = digits.drop_last();
        assert(front.take(k) =~= digits.take(k));
        lemma_digits_prefix(front, k, radix);
        if digits_value(digits, radix) is Some {
            let high = digits_value(front, radix).unwrap();
            assert(high * radix >= high) by (nonlinear_arith)
                requires
                    radix >= 1,
                    high >= 0,
            ;
        }
    }
}

/// The first cell under a column lies among the cells that were looked at,
/// stands under that column, and no cell before it does.
pub proof fn lemma_position(columns: Seq<Option<Column>>, width: int, column: Column)
    requires
        0 <= width <= columns.len(),
    ensures
        match position(columns, width, column) {
            Some(at) => 0 <= at < width && columns[at] == Some(column) && position(
                columns,
                at,
                column,
            ) is None,
            None => forall|k: int| 0 <= k < width ==> columns[k] != Some(column),
        },
    decreases width,
{
    if width > 0 {
        lemma_position(columns, width - 1, column);
    }
}

/// A fault among the first cells stays the first fault of the row.
pub proof fn lemma_first_fault_stays(
    columns: Seq<Option<Column>>,
    cells: Seq<Seq<char>>,
    seen: int,
    width: int,
)
    requires
        0 <= seen <= width,
        first_fault(columns, cells, seen) is Some,
    ensures
        first_fault(columns, cells, width) == first_fault(columns, cells, seen),
    decreases width - seen,
{
    if seen < width {
        lemma_first_fault_stays(columns, cells, seen, width - 1);
    }
}

/// A faulty cell among the first cells is a fault of the row.
pub proof fn lemma_fault_is_found(
    columns: Seq<Option<Column>>,
    cells: Seq<Seq<char>>,
    at: int,
    width: int,
)
    requires
        0 <= at < width,
        fault_at(columns, cells, at) is Some,
    ensures
        first_fault(columns, cells, width) is Some,
    decreases width,
{
    if at < width - 1 {
        lemma_fault_is_found(columns, cells, at, width - 1);
    }
}

/// A row whose cell under `Level` writes no number from 0 to 255 is no
/// record.
pub proof fn lemma_bad_level_fails_row(
    columns: Seq<Option<Column>>,
    cells: Seq<Seq<char>>,
    at: int,
)
    requires
        0 <= at < row_width(columns, cells),
        columns[at] == Some(Column::Level),
        level_of(cells[at]) is None,
    ensures
        row_record(columns, cells) is Err,
{
    lemma_fault_is_found(columns, cells, at, row_width(columns, cells));
}

/// A row without a cell under a column of several values gives a record
/// without values in that field.
pub proof fn lemma_absent_column_is_empty(
    columns: Seq<Option<Column>>,
    cells: Seq<Seq<char>>,
    column: Column,
)
    requires
        column.is_multi_valued(),
        row_record(columns, cells) is Ok,
        forall|k: int| 0 <= k < row_width(columns, cells) ==> columns[k] != Some(column),
    ensures
        row_record(columns, cells).unwrap().values(column).len() == 0,
{
    lemma_position(columns, row_width(columns, cells), column);
}

/// A cell under a column of several values is decoded whatever it holds:
/// what it holds never makes the row fail.
pub proof fn lemma_values_never_fail(
    columns: Seq<Option<Column>>,
    cells: Seq<Seq<char>>,
    at: int,
    text: Seq<char>,
)
    requires
        0 <= at < row_width(columns, cells),
        columns[at] is Some,
        columns[at].unwrap().is_multi_valued(),
    ensures
        row_record(columns, cells.update(at, text)) is Ok <==> row_record(columns, cells) is Ok,
{
    let other = cells.update(at, text);
    let width = row_width(columns, cells);
    assert(row_width(columns, other) == width);
    lemma_same_faults(columns, cells, at, text, width);
}

/// Another text in a cell of several values leaves the faults as they are.
proof fn lemma_same_faults(
    columns: Seq<Option<Column>>,
    cells: Seq<Seq<char>>,
    at: int,
    text: Seq<char>,
    width: int,
)
    requires
        0 <= at < cells.len(),
        0 <= width <= cells.len(),
        width <= columns.len(),
        columns[at] is Some,
        columns[at].unwrap().is_multi_valued(),
    ensures
        first_fault(columns, cells.update(at, text), width) == first_fault(columns, cells, width),
    decreases width,
{
    if width > 0 {
        lemma_same_faults(columns, cells, at, text, width - 1);
    }
}

/// The places of the cells that were found, one for each column.
struct Slots {
    name: Option<usize>,
    notes: Option<usize>,
    url: Option<usize>,
    level: Option<usize>,
    example: Option<usize>,
    platform: Option<usize>,
    type_: Option<usize>,
    os: Option<usize>,
    language: Option<usize>,
    category: Option<usize>,
}

impl Slots {
    spec fn get(self, column: Column) -> Option<usize> {
        match column {
            Column::Name => self.name,
            Column::Notes => self.notes,
            Column::Url => self.url,
            Column::Level => self.level,
            Column::Example => self.example,
            Column::Platform => self.platform,
            Column::Type => self.type_,
            Column::Os => self.os,
            Column::Language => self.language,
            Column::Category => self.category,
        }
    }

    /// The slots agree with the first `width` cells of the header.
    spec fn agrees(self, columns: Seq<Option<Column>>, width: int) -> bool {
        forall|column: Column|
            match #[trigger] position(columns, width, column) {
                Some(at) => 0 <= at < width && self.get(column) == Some(at as usize),
                None => self.get(column) is None,
            }
    }

    fn new() -> (slots: Slots)
        ensures
            forall|column: Column| slots.get(column) is None,
    {
        Slots {
            name: None,
            notes: None,
            url: None,
            level: None,
            example: None,
            platform: None,
            type_: None,
            os: None,
            language: None,
            category: None,
        }
    }

    fn at(&self, column: Column) -> (place: Option<usize>)
        ensures
            place == self.get(column),
    {
        match column {
            Column::Name => self.name,
            Column::Notes => self.notes,
            Column::Url => self.url,
            Column::Level => self.level,
            Column::Example => self.example,
            Column::Platform => self.platform,
            Column::Type => self.type_,
            Column::Os => self.os,
            Column::Language => self.language,
            Column::Category => self.category,
        }
    }

    fn put(&mut self, column: Column, place: usize)
        ensures
            forall|other: Column|
                #[trigger] final(self).get(other) == if other == column {
                    Some(place)
                } else {
                    old(self).get(other)
                },
    {
        match column {
            Column::Name => self.name = Some(place),
            Column::Notes => self.notes = Some(place),
            Column::Url => self.url = Some(place),
            Column::Level => self.level = Some(place),
            Column::Example => self.example = Some(place),
            Column::Platform => self.platform = Some(place),
            Column::Type => self.type_ = Some(place),
            Column::Os => self.os = Some(place),
            Column::Language => self.language = Some(place),
            Column::Category => self.category = Some(place),
        }
    }
}

impl Column {
    /// The name of the column, as a header writes it and as a record shows it.
    pub fn name(self) -> (name: &'static str)
        ensures
            name@ == column_name(self),
    {
        match self {
            Column::Name => "Name",
            Column::Notes => "Notes",
            Column::Url => "URL",
            Column::Level => "Level",
            Column::Example => "Example",
            Column::Platform => "Platform",
            Column::Type => "Type",
            Column::Os => "OS",
            Column::Language => "Language",
            Column::Category => "Category",
        }
    }
}

impl DecodeError {
    /// The failure in words.
    pub fn to_string(&self) -> (text: String)
        ensures
            text@ == decode_error_text(*self),
    {
        let mut text = String::new();
        match self {
            DecodeError::MissingField(column) => {
                text.append("missing field `");
                text.append(column.name());
            },
            DecodeError::DuplicateField(column) => {
                text.append("duplicate field `");
                text.append(column.name());
            },
            DecodeError::TypeMismatch(column) => {
                text.append("type mismatch in field `");
                text.append(column.name());
            },
        }
        text.append("`");
        assert(text@ =~= decode_error_text(*self));
        text
    }
}

/// Tells whether `a` and `b` hold the same characters.
fn same_text(a: &Vec<char>, b: &str) -> (same: bool)
    ensures
        same == (a@ == b@),
{
    let other = chars_of(b);
    if a.len() != other.len() {
        return false;
    }
    let mut i: usize = 0;
    while i < a.len()
        invariant
            i <= a.len(),
            a.len() == other.len(),
            other@ == b@,
            forall|k: int| 0 <= k < i ==> a@[k] == other@[k],
        decreases a.len() - i,
    {
        if a[i] != other[i] {
            return false;
        }
        i = i + 1;
    }
    assert(a@ =~= b@);
    true
}

/// The column that a header cell names, if it names one.
pub fn header_column(header: &str) -> (column: Option<Column>)
    ensures
        column == column_of(header@),
{
    let h = chars_of(header);
    if same_text(&h, "Name") {
        Some(Column::Name)
    } else if same_text(&h, "Notes") {
        Some(Column::Notes)
    } else if h.len() == 3 && (h[0] == 'U' || h[0] == 'u') && (h[1] == 'R' || h[1] == 'r') && (h[2]
        == 'L' || h[2] == 'l') {
        Some(Column::Url)
    } else if same_text(&h, "Level") {
        Some(Column::Level)
    } else if same_text(&h, "Example") {
        Some(Column::Example)
    } else if same_text(&h, "Platform") {
        Some(Column::Platform)
    } else if same_text(&h, "Type") {
        Some(Column::Type)
    } else if h.len() == 2 && (h[0] == 'O' || h[0] == 'o') && (h[1] == 'S' || h[1] == 's') {
        Some(Column::Os)
    } else if same_text(&h, "Language") {
        Some(Column::Language)
    } else if same_text(&h, "Category") {
        Some(Column::Category)
    } else {
        None
    }
}

/// The columns that the cells of a header row name, cell by cell.
pub fn header_columns(header: &Vec<String>) -> (columns: Vec<Option<Column>>)
    ensures
        columns@ == columns_of(header.deep_view()),
{
    let mut columns: Vec<Option<Column>> = Vec::new();
    let mut i: usize = 0;
    while i < header.len()
        invariant
            i <= header.len(),
            columns.len() == i,
            forall|k: int| 0 <= k < i ==> columns@[k] == column_of(#[trigger] header@[k]@),
        decreases header.len() - i,
    {
        columns.push(header_column(header[i].as_str()));
        i = i + 1;
    }
    assert(columns@ =~= columns_of(header.deep_view()));
    columns
}

/// The value of the digit `c` in the given radix.
fn digit_of(c: char, radix: u32) -> (value: Option<u32>)
    requires
        radix == 10 || radix == 16,
    ensures
        value is Some == digit_value(c, radix as nat) is Some,
        value is Some ==> value.unwrap() == digit_value(c, radix as nat).unwrap() && value.unwrap()
            < radix,
{
    if '0' <= c && c <= '9' {
        Some(c as u32 - '0' as u32)
    } else if radix == 16 && 'a' <= c && c <= 'f' {
        Some(c as u32 - 'a' as u32 + 10)
    } else if radix == 16 && 'A' <= c && c <= 'F' {
        Some(c as u32 - 'A' as u32 + 10)
    } else {
        None
    }
}

/// The byte that `chars[from..]` writes in the given radix.
fn parse_unsigned(chars: &Vec<char>, from: usize, radix: u32) -> (value: Option<u8>)
    requires
        from <= chars.len(),
        radix == 10 || radix == 16,
    ensures
        value == in_byte(unsigned(chars@.skip(from as int), radix as nat)),
{
    let n = chars.len();
    let ghost text = chars@.skip(from as int);
    let mut start: usize = from;
    if start < n && chars[start] == '+' {
        start = start + 1;
    }
    let ghost digits = chars@.skip(start as int);
    proof {
        if from < n {
            assert(text[0] == chars@[from as int]);
        }
        if start > from {
            assert(text.drop_first() =~= digits);
        }
        assert(unsigned(text, radix as nat) == if digits.len() == 0 {
            None
        } else {
            digits_value(digits, radix as nat)
        });
    }
    if start == n {
        return None;
    }
    let mut acc: u32 = 0;
    let mut i: usize = start;
    proof {
        assert(digits.take(0) =~= Seq::<char>::empty());
    }
    while i < n
        invariant
            start <= i <= n,
            n == chars.len(),
            radix == 10 || radix == 16,
            digits == chars@.skip(start as int),
            unsigned(chars@.skip(from as int), radix as nat) == digits_value(digits, radix as nat),
            acc <= 255,
            digits_value(digits.take(i - start), radix as nat) == Some(acc as nat),
        decreases n - i,
    {
        let ghost seen = digits.take(i - start + 1);
        proof {
            assert(seen.drop_last() =~= digits.take(i - start));
            assert(seen.last() == chars@[i as int]);
            assert(digits_value(seen, radix as nat) == match (
                digits_value(seen.drop_last(), radix as nat),
                digit_value(seen.last(), radix as nat),
            ) {
                (Some(high), Some(low)) => Some(high * (radix as nat) + low),
                _ => None,
            });
            lemma_digits_prefix(digits, i - start + 1, radix as nat);
        }
        match digit_of(chars[i], radix) {
            None => {
                return None;
            },
            Some(d) => {
                assert(acc * radix + d <= 255 * 16 + 15) by (nonlinear_arith)
                    requires
                        acc <= 255,
                        radix <= 16,
                        d <= 15,
                ;
                let next: u32 = acc * radix + d;
                if next > 255 {
                    return None;
                }
                acc = next;
            },
        }
        i = i + 1;
    }
    assert(digits.take(n - start) =~= digits);
    Some(acc as u8)
}

/// The level that a cell writes, if it writes one.
pub fn parse_level(cell: &str) -> (level: Option<u8>)
    ensures
        level == level_of(cell@),
{
    let chars = chars_of(cell);
    if chars.len() >= 2 && chars[0] == '0' && chars[1] == 'x' {
        parse_unsigned(&chars, 2, 16)
    } else {
        assert(chars@.skip(0) =~= chars@);
        parse_unsigned(&chars, 0, 10)
    }
}

/// The text of an optional cell: none where there is no cell or it is empty.
fn optional_cell(cells: &Vec<String>, place: Option<usize>) -> (text: Option<String>)
    requires
        place matches Some(at) ==> at < cells.len(),
    ensures
        text.deep_view() == optional_text(
            match place {
                Some(at) => Some(cells@[at as int]@),
                None => None,
            },
        ),
{
    match place {
        Some(at) => {
            if cells[at].as_str().is_empty() {
                None
            } else {
                Some(cells[at].clone())
            }
        },
        None => None,
    }
}

/// The values of a cell of several values: none where there is no cell.
fn list_cell(cells: &Vec<String>, place: Option<usize>) -> (values: Vec<String>)
    requires
        place matches Some(at) ==> at < cells.len(),
    ensures
        values.deep_view() == list_of(
            match place {
                Some(at) => Some(cells@[at as int]@),
                None => None,
            },
        ),
{
    match place {
        Some(at) => decode_multi_value(cells[at].as_str()),
        None => {
            let values: Vec<String> = Vec::new();
            assert(values.deep_view() =~= Seq::<Seq<char>>::empty());
            values
        },
    }
}

/// Decodes a row of cells under the given columns into a record.
///
/// The cell at a place stands under the column of the same place; a place
/// that only the header or only the row has carries nothing. The row fails
/// on its first faulty cell (a second cell under one column, or a level that
/// is no number from 0 to 255), and else on the first of `Name`, `Notes`,
/// `URL`, `Level` that has no cell.
pub fn decode_row(columns: &Vec<Option<Column>>, cells: &Vec<String>) -> (row: Result<
    CsvRecord,
    DecodeError,
>)
    ensures
        match row_record(columns@, cells.deep_view()) {
            Ok(record) => row is Ok && row.unwrap()@ == record,
            Err(error) => row == Err::<CsvRecord, DecodeError>(error),
        },
{
    let ghost texts = cells.deep_view();
    let width = if columns.len() <= cells.len() {
        columns.len()
    } else {
        cells.len()
    };
    let mut slots = Slots::new();
    let mut level: u8 = 0;
    let mut i: usize = 0;
    while i < width
        invariant
            i <= width,
            width == row_width(columns@, texts),
            texts == cells.deep_view(),
            slots.agrees(columns@, i as int),
            first_fault(columns@, texts, i as int) is None,
            slots.get(Column::Level) matches Some(at) ==> at < i && level_of(texts[at as int])
                == Some(level),
        decreases width - i,
    {
        match columns[i] {
            None => {
                assert(slots.agrees(columns@, i + 1)) by {
                    assert forall|other: Column|
                        match #[trigger] position(columns@, i + 1, other) {
                            Some(at) => 0 <= at < i + 1 && slots.get(other) == Some(at as usize),
                            None => slots.get(other) is None,
                        } by {
                        assert(match position(columns@, i as int, other) {
                            Some(at) => 0 <= at < i && slots.get(other) == Some(at as usize),
                            None => slots.get(other) is None,
                        });
                    }
                }
            },
            Some(column) => {
                let ghost before = slots;
                assert(position(columns@, i as int, column) is Some == slots.get(column) is Some);
                if slots.at(column).is_some() {
                    proof {
                        lemma_first_fault_stays(columns@, texts, i + 1, width as int);
                    }
                    return Err(DecodeError::DuplicateField(column));
                }
                match column {
                    Column::Level => {
                        assert(texts[i as int] == cells@[i as int]@);
                        match parse_level(cells[i].as_str()) {
                            Some(value) => {
                                level = value;
                            },
                            None => {
                                proof {
                                    lemma_first_fault_stays(columns@, texts, i + 1, width as int);
                                }
                                return Err(DecodeError::TypeMismatch(column));
                            },
                        }
                    },
                    _ => {},
                }
                slots.put(column, i);
                assert(slots.agrees(columns@, i + 1)) by {
                    assert forall|other: Column|
                        match #[trigger] position(columns@, i + 1, other) {
                            Some(at) => 0 <= at < i + 1 && slots.get(other) == Some(at as usize),
                            None => slots.get(other) is None,
                        } by {
                        assert(match position(columns@, i as int, other) {
                            Some(at) => 0 <= at < i && before.get(other) == Some(at as usize),
                            None => before.get(other) is None,
                        });
                    }
                }
            },
        }
        i = i + 1;
    }
    assert(slots.agrees(columns@, width as int));
    let ghost at_name = position(columns@, width as int, Column::Name);
    let ghost at_notes = position(columns@, width as int, Column::Notes);
    let ghost at_url = position(columns@, width as int, Column::Url);
    let ghost at_level = position(columns@, width as int, Column::Level);
    let ghost at_example = position(columns@, width as int, Column::Example);
    let ghost at_platform = position(columns@, width as int, Column::Platform);
    let ghost at_type = position(columns@, width as int, Column::Type);
    let ghost at_os = position(columns@, width as int, Column::Os);
    let ghost at_language = position(columns@, width as int, Column::Language);
    let ghost at_category = position(columns@, width as int, Column::Category);
    let name = match slots.name {
        Some(at) => cells[at].clone(),
        None => {
            return Err(DecodeError::MissingField(Column::Name));
        },
    };
    let notes = match slots.notes {
        Some(at) => cells[at].clone(),
        None => {
            return Err(DecodeError::MissingField(Column::Notes));
        },
    };
    let url = match slots.url {
        Some(at) => cells[at].clone(),
        None => {
            return Err(DecodeError::MissingField(Column::Url));
        },
    };
    if slots.level.is_none() {
        return Err(DecodeError::MissingField(Column::Level));
    }
    let record = CsvRecord {
        name,
        notes,
        url,
        level,
        example: optional_cell(cells, slots.example),
        platform: list_cell(cells, slots.platform),
        type_: list_cell(cells, slots.type_),
        os: list_cell(cells, slots.os),
        language: list_cell(cells, slots.language),
        category: list_cell(cells, slots.category),
    };
    proof {
        let wanted = row_record(columns@, texts).unwrap();
        assert(record@.name == wanted.name);
        assert(record@.notes == wanted.notes);
        assert(record@.url == wanted.url);
        assert(record@.level == wanted.level);
        assert(record@.example == wanted.example);
        assert(record@.platform == wanted.platform);
        assert(record@.type_ == wanted.type_);
        assert(record@.os == wanted.os);
        assert(record@.language == wanted.language);
        assert(record@.category == wanted.category);
    }
    Ok(record)
}

} // verus!
