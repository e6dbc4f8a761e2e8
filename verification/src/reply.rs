//! What goes back to the one who asked: the fields that a record shows, and
//! the envelope around a result or a failure.

use vstd::prelude::*;
use crate::error::LoadError;
use crate::record::{Column, CsvRecord, Record};

verus! {

/// The value of a field, as a record shows it.
#[derive(Clone, Debug, PartialEq, Eq)]
pub enum Value {
    Text(String),
    Number(u8),
    List(Vec<String>),
}

/// A field of a record, as the record shows it: under the name of its
/// column.
#[derive(Clone, Debug, PartialEq, Eq)]
pub struct Field {
    pub column: Column,
    pub value: Value,
}

/// The answer to a request: the result, or the message of the failure. No
/// failure leaves the library in any other form.
#[derive(Clone, Debug, PartialEq, Eq)]
pub enum Envelope<T> {
    Result(T),
    Error(String),
}

/// What a [`Value`] holds.
pub enum Shown {
    Text(Seq<char>),
    Number(u8),
    List(Seq<Seq<char>>),
}

impl View for Value {
    type V = Shown;

    open spec fn view(&self) -> Shown {
        match self {
            Value::Text(text) => Shown::Text(text@),
            Value::Number(number) => Shown::Number(*number),
            Value::List(values) => Shown::List(values.deep_view()),
        }
    }
}

impl View for Field {
    type V = (Column, Shown);

    open spec fn view(&self) -> (Column, Shown) {
        (self.column, self.value@)
    }
}

impl DeepView for Field {
    type V = (Column, Shown);

    open spec fn deep_view(&self) -> (Column, Shown) {
        self@
    }
}

/// A field of several values, as it is shown: not at all where it has none.
pub open spec fn shown_list(column: Column, values: Seq<Seq<char>>) -> Seq<(Column, Shown)> {
    if values.len() == 0 {
        Seq::empty()
    } else {
        seq![(column, Shown::List(values))]
    }
}

/// An optional text, as it is shown: not at all where there is none.
pub open spec fn shown_optional(column: Column, text: Option<Seq<char>>) -> Seq<(Column, Shown)> {
    match text {
        Some(text) => seq![(column, Shown::Text(text))],
        None => Seq::empty(),
    }
}

/// The fields that a record shows, in the order of the columns. The name,
/// the notes, the URL and the level are always shown; the example where
/// there is one; a field of several values where it has any.
pub open spec fn shown_fields(record: Record) -> Seq<(Column, Shown)> {
    seq![
        (Column::Name, Shown::Text(record.name)),
        (Column::Notes, Shown::Text(record.notes)),
        (Column::Url, Shown::Text(record.url)),
        (Column::Level, Shown::Number(record.level)),
    ] + shown_optional(Column::Example, record.example) + shown_list(
        Column::Platform,
        record.platform,
    ) + shown_list(Column::Type, record.type_) + shown_list(Column::Os, record.os) + shown_list(
        Column::Language,
        record.language,
    ) + shown_list(Column::Category, record.category)
}

/// `fields` shows something under `column`.
pub open spec fn shows(fields: Seq<(Column, Shown)>, column: Column) -> bool {
    exists|at: int| 0 <= at < fields.len() && (#[trigger] fields[at]).0 == column
}

/// A field of several values is shown if and only if it has a value, and
/// the example if and only if there is one.
pub proof fn lemma_empty_fields_are_omitted(record: Record, column: Column)
    ensures
        column.is_multi_valued() ==> (shows(shown_fields(record), column) <==> record.values(
            column,
        ).len() > 0),
        column == Column::Example ==> (shows(shown_fields(record), column)
            <==> record.example is Some),
        column.is_required() ==> shows(shown_fields(record), column),
{
    let fields = shown_fields(record);
    let head = seq![
        (Column::Name, Shown::Text(record.name)),
        (Column::Notes, Shown::Text(record.notes)),
        (Column::Url, Shown::Text(record.url)),
        (Column::Level, Shown::Number(record.level)),
    ];
    let a = head + shown_optional(Column::Example, record.example);
    let b = a + shown_list(Column::Platform, record.platform);
    let c = b + shown_list(Column::Type, record.type_);
    let d = c + shown_list(Column::Os, record.os);
    let e = d + shown_list(Column::Language, record.language);
    assert(fields == e + shown_list(Column::Category, record.category));
    lemma_shows_head(head, column);
    lemma_shows_more(head, shown_optional(Column::Example, record.example), column);
    lemma_shows_more(a, shown_list(Column::Platform, record.platform), column);
    lemma_shows_more(b, shown_list(Column::Type, record.type_), column);
    lemma_shows_more(c, shown_list(Column::Os, record.os), column);
    lemma_shows_more(d, shown_list(Column::Language, record.language), column);
    lemma_shows_more(e, shown_list(Column::Category, record.category), column);
    lemma_shows_one(shown_optional(Column::Example, record.example), column);
    lemma_shows_one(shown_list(Column::Platform, record.platform), column);
    lemma_shows_one(shown_list(Column::Type, record.type_), column);
    lemma_shows_one(shown_list(Column::Os, record.os), column);
    lemma_shows_one(shown_list(Column::Language, record.language), column);
    lemma_shows_one(shown_list(Column::Category, record.category), column);
}

/// The four fields that are always shown are shown, and no others among them.
proof fn lemma_shows_head(head: Seq<(Column, Shown)>, column: Column)
    requires
        head.len() == 4,
        head[0].0 == Column::Name,
        head[1].0 == Column::Notes,
        head[2].0 == Column::Url,
        head[3].0 == Column::Level,
    ensures
        shows(head, column) <==> column.is_required(),
{
    if column.is_required() {
        let at: int = if column == Column::Name {
            0
        } else if column == Column::Notes {
            1
        } else if column == Column::Url {
            2
        } else {
            3
        };
        assert(head[at].0 == column);
    }
}

/// What two runs of fields show together is what one of them shows.
proof fn lemma_shows_more(first: Seq<(Column, Shown)>, second: Seq<(Column, Shown)>, column: Column)
    ensures
        shows(first + second, column) <==> shows(first, column) || shows(second, column),
{
    let both = first + second;
    if shows(both, column) {
        let at = choose|at: int| 0 <= at < both.len() && (#[trigger] both[at]).0 == column;
        if at < first.len() {
            assert(first[at].0 == column);
        } else {
            assert(second[at - first.len()].0 == column);
        }
    }
    if shows(first, column) {
        let at = choose|at: int| 0 <= at < first.len() && (#[trigger] first[at]).0 == column;
        assert(both[at].0 == column);
    }
    if shows(second, column) {
        let at = choose|at: int| 0 <= at < second.len() && (#[trigger] second[at]).0 == column;
        assert(both[first.len() + at].0 == column);
    }
}

/// A run of at most one field shows the column of that field and no other.
proof fn lemma_shows_one(run: Seq<(Column, Shown)>, column: Column)
    requires
        run.len() <= 1,
    ensures
        shows(run, column) <==> run.len() == 1 && run[0].0 == column,
{
    if run.len() == 1 && run[0].0 == column {
        assert(shows(run, column));
    }
}

/// The same texts again.
fn copy_texts(texts: &Vec<String>) -> (copy: Vec<String>)
    ensures
        copy.deep_view() == texts.deep_view(),
{
    let mut copy: Vec<String> = Vec::new();
    let mut i: usize = 0;
    while i < texts.len()
        invariant
            i <= texts.len(),
            copy.len() == i,
            forall|k: int| 0 <= k < i ==> (#[trigger] copy@[k])@ == texts@[k]@,
        decreases texts.len() - i,
    {
        copy.push(texts[i].clone());
        i = i + 1;
    }
    assert(copy.deep_view() =~= texts.deep_view());
    copy
}

/// A field of several values, as it is shown.
fn list_field(fields: &mut Vec<Field>, column: Column, values: &Vec<String>)
    ensures
        final(fields).deep_view() == old(fields).deep_view() + shown_list(
            column,
            values.deep_view(),
        ),
{
    let ghost before = fields.deep_view();
    if values.len() > 0 {
        let value = Value::List(copy_texts(values));
        fields.push(Field { column, value });
        assert(fields.deep_view() =~= before + shown_list(column, values.deep_view()));
    } else {
        assert(values.deep_view().len() == 0);
        assert(fields.deep_view() =~= before + shown_list(column, values.deep_view()));
    }
}

/// A text field, as it is shown.
fn text_field(fields: &mut Vec<Field>, column: Column, text: &String)
    ensures
        final(fields).deep_view() == old(fields).deep_view().push((column, Shown::Text(text@))),
{
    let ghost before = fields.deep_view();
    fields.push(Field { column, value: Value::Text(text.clone()) });
    assert(fields.deep_view() =~= before.push((column, Shown::Text(text@))));
}

/// The fields that a record shows, in the order of the columns: a field
/// without a value is left out.
pub fn serialized_fields(record: &CsvRecord) -> (fields: Vec<Field>)
    ensures
        fields.deep_view() == shown_fields(record@),
{
    let mut fields: Vec<Field> = Vec::new();
    assert(fields.deep_view() =~= Seq::empty());
    text_field(&mut fields, Column::Name, &record.name);
    text_field(&mut fields, Column::Notes, &record.notes);
    text_field(&mut fields, Column::Url, &record.url);
    let ghost three = fields.deep_view();
    fields.push(Field { column: Column::Level, value: Value::Number(record.level) });
    assert(fields.deep_view() =~= three.push((Column::Level, Shown::Number(record.level))));
    let ghost head = fields.deep_view();
    assert(head =~= seq![
        (Column::Name, Shown::Text(record@.name)),
        (Column::Notes, Shown::Text(record@.notes)),
        (Column::Url, Shown::Text(record@.url)),
        (Column::Level, Shown::Number(record@.level)),
    ]);
    match &record.example {
        Some(text) => {
            text_field(&mut fields, Column::Example, text);
            assert(fields.deep_view() =~= head + shown_optional(Column::Example, record@.example));
        },
        None => {
            assert(fields.deep_view() =~= head + shown_optional(Column::Example, record@.example));
        },
    }
    list_field(&mut fields, Column::Platform, &record.platform);
    list_field(&mut fields, Column::Type, &record.type_);
    list_field(&mut fields, Column::Os, &record.os);
    list_field(&mut fields, Column::Language, &record.language);
    list_field(&mut fields, Column::Category, &record.category);
    fields
}

/// The envelope around an outcome: the result as it is, or the message of
/// the failure.
pub fn envelope<T>(outcome: Result<T, LoadError>) -> (reply: Envelope<T>)
    ensures
        match outcome {
            Ok(result) => reply == Envelope::Result(result),
            Err(error) => reply matches Envelope::Error(message) && message@ == error.message@,
        },
{
    match outcome {
        Ok(result) => Envelope::Result(result),
        Err(error) => Envelope::Error(error.to_string()),
    }
}

} // verus!
