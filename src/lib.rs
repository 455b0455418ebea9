//! Lists a directory as an aligned text report whose columns adapt to the
//! available display width.
pub mod arg_processing;
pub mod entry;
pub mod lines;
pub mod output_formatting;

use crate::entry::{Entry, EntryKind};
use crate::output_formatting::{generate_textual_display, report_of, CommandView, FormattingCommand};
use vstd::prelude::*;

verus! {

#[verifier::external_type_specification]
#[verifier::external_body]
pub struct ExErrorKind(std::io::ErrorKind);

/// Relies on `io::ErrorKind` being `Copy`: a clone is the same kind.
pub assume_specification[ <std::io::ErrorKind as Clone>::clone ](k: &std::io::ErrorKind) -> (r: std::io::ErrorKind)
    ensures
        r == *k,
;

/// What can go wrong while turning directory entries into a report.
#[derive(Debug, Clone)]
pub enum FileEntryParsingError {
    UnableToReadDir { target: String, original_error: std::io::ErrorKind },
    FileNameInvalidUnicode,
    MissingMetaDataError { original_error: std::io::ErrorKind },
    UnableToCalculatePathLengths,
    /// Extended attributes were asked for on a display of 80 columns or fewer.
    MinimumWidthViolation,
    /// A file's timestamp lies outside the calendar that dates are shown in.
    InvalidTimestamp,
}

/// Relies on the `Debug` impl of `io::ErrorKind` (the kind's name).
#[verifier::external_body]
fn error_kind_name(kind: std::io::ErrorKind) -> (r: String) {
    format!("{:?}", kind)
}

/// Relies on the `Display` impl of `io::ErrorKind` (a short description).
#[verifier::external_body]
fn error_kind_description(kind: std::io::ErrorKind) -> (r: String) {
    format!("{}", kind)
}

impl FileEntryParsingError {
    /// The message that describes the error.
    pub fn to_string(&self) -> (r: String)
        ensures
            match self {
                FileEntryParsingError::UnableToReadDir { target, .. } => exists|d: Seq<char>|
                    r@ == "was unable to read the contents of "@ + target@ + " due to "@ + d,
                FileEntryParsingError::FileNameInvalidUnicode => r@
                    == "file entry did not consist of valid unicode"@,
                FileEntryParsingError::MissingMetaDataError { .. } => exists|d: Seq<char>|
                    r@ == "unable to read meta data due to "@ + d,
                FileEntryParsingError::UnableToCalculatePathLengths => r@
                    == "unable to calculate the length of any paths"@,
                FileEntryParsingError::MinimumWidthViolation => r@
                    == "requires minimum console width of 80"@,
                FileEntryParsingError::InvalidTimestamp => r@
                    == "timestamp cannot be shown as a calendar date"@,
            },
    {
        match self {
            FileEntryParsingError::UnableToReadDir { target, original_error } => {
                let mut r = String::from_str("was unable to read the contents of ");
                r.append(target.as_str());
                r.append(" due to ");
                let d = error_kind_name(*original_error);
                r.append(d.as_str());
                proof {
                    assert(r@ =~= "was unable to read the contents of "@ + target@ + " due to "@
                        + d@);
                }
                r
            },
            FileEntryParsingError::FileNameInvalidUnicode => String::from_str(
                "file entry did not consist of valid unicode",
            ),
            FileEntryParsingError::MissingMetaDataError { original_error } => {
                let mut r = String::from_str("unable to read meta data due to ");
                let d = error_kind_description(*original_error);
                r.append(d.as_str());
                r
            },
            FileEntryParsingError::UnableToCalculatePathLengths => String::from_str(
                "unable to calculate the length of any paths",
            ),
            FileEntryParsingError::MinimumWidthViolation => String::from_str(
                "requires minimum console width of 80",
            ),
            FileEntryParsingError::InvalidTimestamp => String::from_str(
                "timestamp cannot be shown as a calendar date",
            ),
        }
    }
}

/// The entry is a directory.
pub open spec fn is_directory(e: Entry) -> bool {
    e.kind == EntryKind::Directory
}

/// The entry is a file.
pub open spec fn is_file(e: Entry) -> bool {
    e.kind == EntryKind::File
}

/// Splits entries into directories and files, each in the order given;
/// entries whose kind is unknown are left out.
pub fn split_into_files_and_dirs(file_collection: Vec<Entry>) -> (r: (Vec<Entry>, Vec<Entry>))
    ensures
        r.0@ == file_collection@.filter(|e: Entry| is_directory(e)),
        r.1@ == file_collection@.filter(|e: Entry| is_file(e)),
{
    let ghost all = file_collection@;
    let mut rest = file_collection;
    let mut directories: Vec<Entry> = Vec::new();
    let mut files: Vec<Entry> = Vec::new();
    let ghost mut k: int = 0;
    proof {
        assert(all.take(0) =~= Seq::<Entry>::empty());
        assert(all.skip(0) =~= all);
    }
    while rest.len() > 0
        invariant
            0 <= k <= all.len(),
            rest@ == all.skip(k),
            directories@ == all.take(k).filter(|e: Entry| is_directory(e)),
            files@ == all.take(k).filter(|e: Entry| is_file(e)),
        decreases rest@.len(),
    {
        let entry = rest.remove(0);
        let ghost next = all.take(k + 1);
        proof {
            reveal(Seq::filter);
            assert(next.drop_last() =~= all.take(k));
            assert(next.last() == entry);
            assert(rest@ =~= all.skip(k + 1));
            assert(next.filter(|e: Entry| is_directory(e)) == if is_directory(entry) {
                all.take(k).filter(|e: Entry| is_directory(e)).push(entry)
            } else {
                all.take(k).filter(|e: Entry| is_directory(e))
            });
            assert(next.filter(|e: Entry| is_file(e)) == if is_file(entry) {
                all.take(k).filter(|e: Entry| is_file(e)).push(entry)
            } else {
                all.take(k).filter(|e: Entry| is_file(e))
            });
            k = k + 1;
        }
        match entry.kind {
            EntryKind::Directory => directories.push(entry),
            EntryKind::File => files.push(entry),
            EntryKind::Unknown => {},
        }
    }
    proof {
        assert(all.take(k) =~= all);
    }
    (directories, files)
}

/// The listing of the entries of a directory, split into files and
/// directories, as `generate_textual_display` renders it.
pub fn convert_read_dir_to_filename_collection(
    file_collection: Vec<Entry>,
    extended_attr: bool,
    width: usize,
) -> (r: Result<String, FileEntryParsingError>)
    ensures
        ({
            let c = CommandView {
                extended_attr,
                width: width as nat,
                files: file_collection@.filter(|e: Entry| is_file(e)),
                directories: file_collection@.filter(|e: Entry| is_directory(e)),
            };
            match r {
                Ok(s) => report_of(c) == Ok::<_, FileEntryParsingError>(s@),
                Err(e) => report_of(c) == Err::<Seq<char>, _>(e),
            }
        }),
{
    let (directories, files) = split_into_files_and_dirs(file_collection);
    generate_textual_display(FormattingCommand::new(extended_attr, width, files, directories))
}

} // verus!
