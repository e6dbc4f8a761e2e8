//! Reference-data records: reading them from CSV text, indexing their
//! types, listing the data files of a folder and setting up the day's log
//! file.
//!
//! The library touches no file. What is read from disk is handed to it, and
//! what is to be opened or written it describes: see [`load`] for the steps
//! of a load, and [`logging`] for the log sink.

pub mod error;
pub mod index;
pub mod listing;
pub mod load;
pub mod logging;
pub mod record;
pub mod reply;
pub mod table;
pub mod text;

pub use error::{ErrorKind, LoadError};
pub use index::distinct_types;
pub use listing::folder_files;
pub use load::{read_csv_file, read_type_set, Event, Step};
pub use logging::{logger_setting, LoggerSetting};
pub use record::{Column, CsvRecord, DecodeError};
pub use reply::{envelope, serialized_fields, Envelope, Field, Value};
pub use table::parse_csv;
