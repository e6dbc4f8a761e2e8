//! Loading a data file, step by step.
//!
//! The library reads no file itself. Whoever loads a file tells it what has
//! happened so far, as an [`Event`], and is told what to do next, as a
//! [`Step`]: to find the folder of the data files, to open a file, or to
//! stop with the outcome. A load begins with [`Event::Begin`] and goes on
//! until a step is [`Step::Done`].

use vstd::prelude::*;
use crate::error::{ErrorKind, LoadError};
use crate::index::{all_types, distinct, distinct_types};
use crate::record::CsvRecord;
use crate::table::{is_parse_of, parse_csv};

verus! {

/// What has happened so far in a load.
pub enum Event {
    /// Nothing yet: the file of the given name is to be loaded.
    Begin(String),
    /// The path of the file below the resource root was looked for: here it
    /// is, or why the resource root was not found.
    Resolved(Result<String, String>),
    /// The file was opened and read: here are its bytes, or the failure.
    Opened(Result<Vec<u8>, LoadError>),
}

/// What is to be done next in a load.
pub enum Step<T> {
    /// Find the path of the file `name` in the folder `folder` below the
    /// resource root, and come back with [`Event::Resolved`].
    Resolve { folder: String, name: String },
    /// Open the file at `path`, read it, and come back with
    /// [`Event::Opened`].
    Open { path: String },
    /// The load is over, with this outcome.
    Done(Result<T, LoadError>),
}

/// `step` is the step that follows `event`, for every event but the one
/// that brings the bytes of the file: what follows that one depends on what
/// is loaded.
pub open spec fn step_before_data<T>(event: Event, step: Step<T>) -> bool {
    match event {
        Event::Begin(filename) => if filename@.len() == 0 {
            step matches Step::Done(Err(error)) && error.kind == ErrorKind::InvalidInput
                && error.message@ == "Filename cannot be empty"@
        } else {
            step matches Step::Resolve { folder, name } && folder@ == "document"@ && name@
                == filename@
        },
        Event::Resolved(Err(reason)) => step matches Step::Done(Err(error)) && error.kind
            == ErrorKind::NotFound && error.message@ == reason@,
        Event::Resolved(Ok(found)) => if found@.len() == 0 {
            step matches Step::Done(Err(error)) && error.kind == ErrorKind::InvalidInput
                && error.message@ == "Resource path cannot be empty"@
        } else {
            step matches Step::Open { path } && path@ == found@
        },
        Event::Opened(Err(failure)) => step matches Step::Done(Err(error)) && error == failure,
        Event::Opened(Ok(_)) => true,
    }
}

/// The next step of the loading of the records of a data file.
///
/// An empty file name ends the load with `InvalidInput` before anything is
/// looked for or opened, and so does an empty path. A resource root that is
/// not found ends it with `NotFound`. A failure to open or read the file is
/// the outcome as it came. The bytes of the file are read as a table of
/// records: see [`parse_csv`].
pub fn read_csv_file(event: Event) -> (step: Step<Vec<CsvRecord>>)
    ensures
        step_before_data(event, step),
        event matches Event::Opened(Ok(bytes)) ==> step matches Step::Done(out) && is_parse_of(
            out,
            bytes@,
        ),
{
    match event {
        Event::Begin(filename) => {
            if filename.as_str().is_empty() {
                Step::Done(
                    Err(LoadError::new(ErrorKind::InvalidInput, "Filename cannot be empty".to_owned())),
                )
            } else {
                Step::Resolve { folder: "document".to_owned(), name: filename }
            }
        },
        Event::Resolved(Err(reason)) => Step::Done(Err(LoadError::new(ErrorKind::NotFound, reason))),
        Event::Resolved(Ok(found)) => {
            if found.as_str().is_empty() {
                Step::Done(
                    Err(
                        LoadError::new(
                            ErrorKind::InvalidInput,
                            "Resource path cannot be empty".to_owned(),
                        ),
                    ),
                )
            } else {
                Step::Open { path: found }
            }
        },
        Event::Opened(Err(failure)) => Step::Done(Err(failure)),
        Event::Opened(Ok(bytes)) => Step::Done(parse_csv(bytes.as_slice())),
    }
}

/// `types` is the index of the types of the records that the reading of the
/// table in `data` gives, or the failure of that reading.
pub open spec fn is_type_set_of(types: Result<Vec<String>, LoadError>, data: Seq<u8>) -> bool {
    exists|out: Result<Vec<CsvRecord>, LoadError>|
        is_parse_of(out, data) && match out {
            Ok(records) => types is Ok && types.unwrap().deep_view() == distinct(
                all_types(records.deep_view()),
            ),
            Err(error) => types is Err && types.unwrap_err() == error,
        }
}

/// The next step of the loading of the index of the types of a data file.
///
/// The steps are those of [`read_csv_file`], and so are the failures, each
/// passed on as it is. Where the records are read, the outcome is the index
/// of their types: see [`distinct_types`].
pub fn read_type_set(event: Event) -> (step: Step<Vec<String>>)
    ensures
        step_before_data(event, step),
        event matches Event::Opened(Ok(bytes)) ==> step matches Step::Done(types)
            && is_type_set_of(types, bytes@),
{
    match read_csv_file(event) {
        Step::Resolve { folder, name } => Step::Resolve { folder, name },
        Step::Open { path } => Step::Open { path },
        Step::Done(Err(error)) => Step::Done(Err(error)),
        Step::Done(Ok(records)) => Step::Done(Ok(distinct_types(&records))),
    }
}

} // verus!
