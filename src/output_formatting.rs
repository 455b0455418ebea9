use crate::entry::{Entry, EntryMetadata, Timestamp};
use crate::lines::{
    has_no_line_feed, join_lines, lemma_concat_no_line_feed, lemma_join_line_count, line_count,
    lines_without_feeds,
};
use crate::FileEntryParsingError;
use unicode_segmentation::UnicodeSegmentation;
use vstd::prelude::*;
use vstd::seq_lib::lemma_flatten_concat;

verus! {

/// The icon that starts the row of a file.
pub const FLOPPY: &'static str = "\u{1F4BE}";
/// The icon that starts the row of a directory.
pub const FOLDER: &'static str = "\u{1F4C1}";
/// Bytes of an extended row taken by everything but the name cell: the icon
/// (four bytes), two dates, the permissions and the separating spaces.
pub const RESERVED_LENGTH: usize = 66;
/// How dates are shown: `YYYY-MM-DD HH:MM:SS.mmm`, in UTC.
pub const DATE_FORMAT: &'static str = "%Y-%m-%d %H:%M:%S%.3f";

/// The extended grapheme clusters of a string, in order.
pub uninterp spec fn graphemes_of(s: Seq<char>) -> Seq<Seq<char>>;

/// Relies on `UnicodeSegmentation::graphemes(s, true)`: it yields the extended
/// grapheme clusters of `s` as consecutive non-empty slices from its start to
/// its end.
#[verifier::external_body]
fn grapheme_clusters(s: &str) -> (r: Vec<String>)
    ensures
        r@.map_values(|g: String| g@) == graphemes_of(s@),
        r@.map_values(|g: String| g@).flatten() == s@,
        forall|i: int| 0 <= i < r@.len() ==> (#[trigger] r@[i])@.len() > 0,
{
    s.graphemes(true).map(String::from).collect()
}

/// `n` copies of `c`.
pub open spec fn repeat_char(c: char, n: nat) -> Seq<char> {
    Seq::new(n, |i: int| c)
}

/// `s` repeated `n` times.
fn repeat_str(s: &str, n: usize) -> (r: String)
    requires
        s@.len() == 1,
    ensures
        r@ == repeat_char(s@[0], n as nat),
{
    let mut r = String::new();
    let mut i: usize = 0;
    while i < n
        invariant
            i <= n,
            s@.len() == 1,
            r@ == repeat_char(s@[0], i as nat),
        decreases n - i,
    {
        r.append(s);
        i = i + 1;
        assert(r@ =~= repeat_char(s@[0], i as nat));
    }
    r
}

/// The name cell of an extended row, as clusters: the first `width` clusters
/// of the path, or all of them followed by one space for each missing cluster.
pub open spec fn name_cell_units(path: Seq<char>, width: nat) -> Seq<Seq<char>> {
    let gs = graphemes_of(path);
    if gs.len() >= width {
        gs.take(width as int)
    } else {
        gs + Seq::new((width - gs.len()) as nat, |i: int| seq![' '])
    }
}

/// The text of the name cell of an extended row.
pub open spec fn name_cell(path: Seq<char>, width: nat) -> Seq<char> {
    let gs = graphemes_of(path);
    if gs.len() >= width {
        gs.take(width as int).flatten()
    } else {
        path + repeat_char(' ', (width - gs.len()) as nat)
    }
}

/// Concatenates the strings of `parts`.
fn concat_all(parts: &Vec<String>, n: usize) -> (r: String)
    requires
        n <= parts@.len(),
    ensures
        r@ == parts@.map_values(|g: String| g@).take(n as int).flatten(),
{
    let mut r = String::new();
    let mut i: usize = 0;
    while i < n
        invariant
            i <= n <= parts@.len(),
            r@ == parts@.map_values(|g: String| g@).take(i as int).flatten(),
        decreases n - i,
    {
        let ghost before = parts@.map_values(|g: String| g@).take(i as int);
        r.append(parts[i].as_str());
        i = i + 1;
        proof {
            let views = parts@.map_values(|g: String| g@);
            assert(views.take(i as int) =~= before.push(views[i - 1]));
            before.lemma_flatten_push(views[i - 1]);
        }
    }
    r
}

/// `n` one-space clusters spell `n` spaces.
proof fn lemma_flatten_spaces(n: nat)
    ensures
        Seq::new(n, |i: int| seq![' ']).flatten() == repeat_char(' ', n),
    decreases n,
{
    if n > 0 {
        let units = Seq::new(n, |i: int| seq![' ']);
        let fewer = Seq::new((n - 1) as nat, |i: int| seq![' ']);
        assert(units =~= fewer.push(seq![' ']));
        fewer.lemma_flatten_push(seq![' ']);
        lemma_flatten_spaces((n - 1) as nat);
        assert(repeat_char(' ', n) =~= repeat_char(' ', (n - 1) as nat) + seq![' ']);
    }
}

/// Clusters whose first is not empty spell a non-empty text.
proof fn lemma_flatten_non_empty(gs: Seq<Seq<char>>)
    requires
        gs.len() > 0,
        gs[0].len() > 0,
    ensures
        gs.flatten().len() > 0,
{
    assert(gs.flatten() == gs.first() + gs.drop_first().flatten());
}

/// Fits a path to a cell of `allowed_width` grapheme clusters: longer paths
/// are cut after that many clusters, shorter ones padded with spaces, one per
/// missing cluster (a path of exactly that many clusters is kept as it is).
/// A cut cell is a prefix of the path, and a strict one when clusters were
/// dropped.
pub fn set_file_name_length(allowed_width: usize, file_name: &str) -> (r: String)
    ensures
        r@ == name_cell(file_name@, allowed_width as nat),
        name_cell_units(file_name@, allowed_width as nat).len() == allowed_width,
        name_cell_units(file_name@, allowed_width as nat).flatten() == r@,
        graphemes_of(file_name@).len() >= allowed_width ==> r@ == graphemes_of(file_name@).take(
            allowed_width as int,
        ).flatten() && r@ == file_name@.take(r@.len() as int),
        graphemes_of(file_name@).len() > allowed_width ==> r@.len() < file_name@.len(),
        graphemes_of(file_name@).len() <= allowed_width ==> r@ == file_name@ + repeat_char(
            ' ',
            (allowed_width - graphemes_of(file_name@).len()) as nat,
        ),
        graphemes_of(file_name@).flatten() == file_name@,
        has_no_line_feed(file_name@) ==> has_no_line_feed(r@),
{
    let clusters = grapheme_clusters(file_name);
    let ghost gs = graphemes_of(file_name@);
    let ghost w = allowed_width as int;
    if clusters.len() >= allowed_width {
        let r = concat_all(&clusters, allowed_width);
        proof {
            assert(clusters@.map_values(|g: String| g@) == gs);
            assert(gs.take(w) + gs.skip(w) =~= gs);
            lemma_flatten_concat(gs.take(w), gs.skip(w));
            assert(file_name@ == r@ + gs.skip(w).flatten());
            assert(r@ =~= file_name@.take(r@.len() as int));
            if gs.len() == w {
                assert(gs.skip(w) =~= Seq::<Seq<char>>::empty());
                assert(r@ =~= file_name@ + repeat_char(' ', 0));
            }
            if gs.len() > w {
                assert(gs.skip(w)[0] == gs[w]);
                assert(clusters@[w]@.len() > 0);
                lemma_flatten_non_empty(gs.skip(w));
            }
            if has_no_line_feed(file_name@) && r@.contains('\n') {
                let k = choose|k: int| 0 <= k < r@.len() && r@[k] == '\n';
                assert(file_name@[k] == '\n');
            }
        }
        r
    } else {
        proof {
            reveal_strlit(" ");
        }
        let spacer = repeat_str(" ", allowed_width - clusters.len());
        let mut r = String::from_str(file_name);
        r.append(spacer.as_str());
        proof {
            let k = (w - gs.len()) as nat;
            let pad = Seq::new(k, |i: int| seq![' ']);
            assert(clusters@.map_values(|g: String| g@) == gs);
            lemma_flatten_concat(gs, pad);
            lemma_flatten_spaces(k);
            lemma_concat_no_line_feed_padding(file_name@, k);
        }
        r
    }
}

/// A path without line feeds stays so when padded with spaces.
proof fn lemma_concat_no_line_feed_padding(p: Seq<char>, k: nat)
    ensures
        has_no_line_feed(p) ==> has_no_line_feed(p + repeat_char(' ', k)),
{
    if has_no_line_feed(p) {
        assert(has_no_line_feed(repeat_char(' ', k)));
        lemma_concat_no_line_feed(p, repeat_char(' ', k));
    }
}


/// The first second of the year 0000 (UTC), as seconds since the Unix epoch.
pub const FIRST_FOUR_DIGIT_YEAR_SECOND: i64 = -62167219200;
/// The first second of the year 10000 (UTC), as seconds since the Unix epoch.
pub const FIRST_FIVE_DIGIT_YEAR_SECOND: i64 = 253402300800;

/// The instant lies in the years 0 to 9999 and its nanosecond count is
/// below one second.
pub open spec fn in_four_digit_years(secs: i64, nanos: u32) -> bool {
    nanos < 1_000_000_000 && FIRST_FOUR_DIGIT_YEAR_SECOND <= secs < FIRST_FIVE_DIGIT_YEAR_SECOND
}

/// The text of a UTC instant in the pattern `DATE_FORMAT`, if the instant can
/// be written as a calendar date.
pub uninterp spec fn utc_date_text(secs: i64, nanos: u32) -> Option<Seq<char>>;

/// An ASCII decimal digit.
pub open spec fn is_digit(c: char) -> bool {
    '0' <= c <= '9'
}

/// `t` reads `YYYY-MM-DD HH:MM:SS.mmm`.
pub open spec fn is_date_shape(t: Seq<char>) -> bool {
    &&& t.len() == 23
    &&& t[4] == '-' && t[7] == '-' && t[10] == ' '
    &&& t[13] == ':' && t[16] == ':' && t[19] == '.'
    &&& forall|i: int|
        0 <= i < 23 && i != 4 && i != 7 && i != 10 && i != 13 && i != 16 && i != 19 ==> is_digit(
            #[trigger] t[i],
        )
}

/// Relies on chrono's `DateTime::<Utc>::from_timestamp(secs, nanos)`, then
/// `format(pattern).to_string()`. `from_timestamp` gives `None` only for an
/// instant outside chrono's calendar or a nanosecond count of two billion or
/// more (or of one billion or more outside a leap second). With this pattern, a year from
/// 0 to 9999 is written in four digits and each other field is zero-padded,
/// so no line break is ever written.
#[verifier::external_body]
fn format_date(secs: i64, nanos: u32, pattern: &str) -> (r: Option<String>)
    requires
        pattern@ == DATE_FORMAT@,
    ensures
        r is None <==> utc_date_text(secs, nanos) is None,
        r matches Some(t) ==> utc_date_text(secs, nanos) == Some(t@),
        r is Some || !in_four_digit_years(secs, nanos),
        r matches Some(t) ==> (in_four_digit_years(secs, nanos) ==> is_date_shape(t@)),
        r matches Some(t) ==> !t@.contains('\n'),
{
    match chrono::DateTime::<chrono::Utc>::from_timestamp(secs, nanos) {
        Some(date) => Some(date.format(pattern).to_string()),
        None => None,
    }
}

/// Which of a file's timestamps to show.
pub enum TimeOptions {
    Created,
    Modified,
}

/// The instant that `options` picks out of `meta_data`.
pub open spec fn chosen_time(meta_data: EntryMetadata, options: TimeOptions) -> Timestamp {
    match options {
        TimeOptions::Created => meta_data.created_at,
        TimeOptions::Modified => meta_data.modified_at,
    }
}

/// The date cell for an instant, if the instant can be written as a date.
pub open spec fn date_cell(t: Timestamp) -> Option<Seq<char>> {
    utc_date_text(t.secs, t.nanos)
}

/// The date that `options` picks, formatted as `DATE_FORMAT`.
fn get_formatted_date(meta_data: &EntryMetadata, options: TimeOptions) -> (r: Option<String>)
    ensures
        match r {
            Some(t) => date_cell(chosen_time(*meta_data, options)) == Some(t@),
            None => date_cell(chosen_time(*meta_data, options)) is None,
        },
        r matches Some(t) ==> !t@.contains('\n'),
        r is Some || !in_four_digit_years(
            chosen_time(*meta_data, options).secs,
            chosen_time(*meta_data, options).nanos,
        ),
{
    let since_epoch = match options {
        TimeOptions::Created => meta_data.created_at,
        TimeOptions::Modified => meta_data.modified_at,
    };
    format_date(since_epoch.secs, since_epoch.nanos, DATE_FORMAT)
}

/// The permissions cell.
pub open spec fn permissions_cell(read_only: bool) -> Seq<char> {
    if read_only {
        "read only   "@
    } else {
        "writable    "@
    }
}

/// The entry's path holds no line feed.
pub open spec fn path_without_feed(e: Entry) -> bool {
    match e.path {
        Some(p) => has_no_line_feed(p@),
        None => true,
    }
}

/// No path of `entries` holds a line feed.
pub open spec fn paths_without_feeds(entries: Seq<Entry>) -> bool {
    forall|i: int| 0 <= i < entries.len() ==> path_without_feed(#[trigger] entries[i])
}

/// An entry that renders: its path is valid Unicode and, in the extended
/// listing, its attributes were read and both its dates fall in the years 0
/// to 9999.
pub open spec fn renders(e: Entry, extended: bool) -> bool {
    &&& e.path is Some
    &&& extended ==> match e.metadata {
        Ok(m) => in_four_digit_years(m.created_at.secs, m.created_at.nanos) && in_four_digit_years(
            m.modified_at.secs,
            m.modified_at.nanos,
        ),
        Err(_) => false,
    }
}

/// Every entry of `entries` renders.
pub open spec fn all_render(entries: Seq<Entry>, extended: bool) -> bool {
    forall|i: int| 0 <= i < entries.len() ==> renders(#[trigger] entries[i], extended)
}

/// Each line is non-empty.
pub open spec fn lines_non_empty(lines: Seq<Seq<char>>) -> bool {
    forall|i: int| 0 <= i < lines.len() ==> (#[trigger] lines[i]).len() > 0
}

/// The row of a file in the extended listing: icon, name cell, date created,
/// permissions and date modified, separated by single spaces.
pub open spec fn extended_row(e: Entry, name_width: nat) -> Result<Seq<char>, FileEntryParsingError> {
    match e.path {
        None => Err(FileEntryParsingError::FileNameInvalidUnicode),
        Some(p) => match e.metadata {
            Err(k) => Err(FileEntryParsingError::MissingMetaDataError { original_error: k }),
            Ok(m) => match (date_cell(m.created_at), date_cell(m.modified_at)) {
                (Some(c), Some(d)) => Ok(
                    FLOPPY@ + seq![' '] + name_cell(p@, name_width) + seq![' '] + c + seq![' ']
                        + permissions_cell(m.read_only) + seq![' '] + d,
                ),
                _ => Err(FileEntryParsingError::InvalidTimestamp),
            },
        },
    }
}

/// Renders one file with its attributes, its name fitted to `allowed_width`.
fn format_file_entry_with_ext_attr(dir: &Entry, allowed_width: usize) -> (r: Result<
    String,
    FileEntryParsingError,
>)
    ensures
        match r {
            Ok(s) => extended_row(*dir, allowed_width as nat) == Ok::<_, FileEntryParsingError>(s@),
            Err(e) => extended_row(*dir, allowed_width as nat) == Err::<Seq<char>, _>(e),
        },
        r matches Ok(s) ==> s@.len() > 0 && (path_without_feed(*dir) ==> has_no_line_feed(s@)),
        renders(*dir, true) ==> r is Ok,
{
    let file_name = match &dir.path {
        Some(file_name) => set_file_name_length(allowed_width, file_name.as_str()),
        None => return Err(FileEntryParsingError::FileNameInvalidUnicode),
    };
    let meta_data = match &dir.metadata {
        Ok(meta) => *meta,
        Err(error) => {
            return Err(FileEntryParsingError::MissingMetaDataError { original_error: *error })
        },
    };
    let date_created = match get_formatted_date(&meta_data, TimeOptions::Created) {
        Some(date) => date,
        None => return Err(FileEntryParsingError::InvalidTimestamp),
    };
    let permissions = if meta_data.read_only {
        "read only   "
    } else {
        "writable    "
    };
    let date_modified = match get_formatted_date(&meta_data, TimeOptions::Modified) {
        Some(date) => date,
        None => return Err(FileEntryParsingError::InvalidTimestamp),
    };
    let mut row = String::from_str(FLOPPY);
    row.append(" ");
    row.append(file_name.as_str());
    row.append(" ");
    row.append(date_created.as_str());
    row.append(" ");
    row.append(permissions);
    row.append(" ");
    row.append(date_modified.as_str());
    proof {
        reveal_strlit(" ");
        assert(permissions@ == permissions_cell(meta_data.read_only));
        assert(row@ =~= FLOPPY@ + seq![' '] + file_name@ + seq![' '] + date_created@ + seq![' ']
            + permissions@ + seq![' '] + date_modified@);
        if path_without_feed(*dir) {
            reveal_strlit("\u{1F4BE}");
            reveal_strlit("read only   ");
            reveal_strlit("writable    ");
            let sp = seq![' '];
            assert(has_no_line_feed(sp));
            assert(has_no_line_feed(FLOPPY@));
            assert(has_no_line_feed(permissions@));
            lemma_concat_no_line_feed(FLOPPY@, sp);
            lemma_concat_no_line_feed(FLOPPY@ + sp, file_name@);
            lemma_concat_no_line_feed(FLOPPY@ + sp + file_name@, sp);
            lemma_concat_no_line_feed(FLOPPY@ + sp + file_name@ + sp, date_created@);
            lemma_concat_no_line_feed(FLOPPY@ + sp + file_name@ + sp + date_created@, sp);
            lemma_concat_no_line_feed(
                FLOPPY@ + sp + file_name@ + sp + date_created@ + sp,
                permissions@,
            );
            lemma_concat_no_line_feed(
                FLOPPY@ + sp + file_name@ + sp + date_created@ + sp + permissions@,
                sp,
            );
            lemma_concat_no_line_feed(
                FLOPPY@ + sp + file_name@ + sp + date_created@ + sp + permissions@ + sp,
                date_modified@,
            );
        }
    }
    Ok(row)
}


/// The rows of `files` in the extended listing, or the error of the first
/// file that cannot be rendered.
pub open spec fn extended_rows(files: Seq<Entry>, name_width: nat) -> Result<
    Seq<Seq<char>>,
    FileEntryParsingError,
>
    decreases files.len(),
{
    if files.len() == 0 {
        Ok(Seq::empty())
    } else {
        match extended_rows(files.drop_last(), name_width) {
            Err(e) => Err(e),
            Ok(rows) => match extended_row(files.last(), name_width) {
                Err(e) => Err(e),
                Ok(row) => Ok(rows.push(row)),
            },
        }
    }
}

/// The row of an entry in the plain listing: icon, a space and the full path.
pub open spec fn plain_row(icon: Seq<char>, e: Entry) -> Result<Seq<char>, FileEntryParsingError> {
    match e.path {
        None => Err(FileEntryParsingError::FileNameInvalidUnicode),
        Some(p) => Ok(icon + seq![' '] + p@),
    }
}

/// The plain rows of `entries`, or the error of the first entry whose path
/// cannot be rendered.
pub open spec fn plain_rows(icon: Seq<char>, entries: Seq<Entry>) -> Result<
    Seq<Seq<char>>,
    FileEntryParsingError,
>
    decreases entries.len(),
{
    if entries.len() == 0 {
        Ok(Seq::empty())
    } else {
        match plain_rows(icon, entries.drop_last()) {
            Err(e) => Err(e),
            Ok(rows) => match plain_row(icon, entries.last()) {
                Err(e) => Err(e),
                Ok(row) => Ok(rows.push(row)),
            },
        }
    }
}

/// The texts of a sequence of strings.
pub open spec fn views(v: Seq<String>) -> Seq<Seq<char>> {
    v.map_values(|s: String| s@)
}

/// Renders each file with its attributes, in order; stops at the first error.
fn format_each_ext_attr_entry(files: &Vec<Entry>, max_file_name_width: usize) -> (r: Result<
    Vec<String>,
    FileEntryParsingError,
>)
    ensures
        match r {
            Ok(rows) => extended_rows(files@, max_file_name_width as nat) == Ok::<
                _,
                FileEntryParsingError,
            >(views(rows@)),
            Err(e) => extended_rows(files@, max_file_name_width as nat) == Err::<
                Seq<Seq<char>>,
                _,
            >(e),
        },
        r matches Ok(rows) ==> rows@.len() == files@.len() && lines_non_empty(views(rows@)) && (
        paths_without_feeds(files@) ==> lines_without_feeds(views(rows@))),
        all_render(files@, true) ==> r is Ok,
{
    let mut rows: Vec<String> = Vec::new();
    let mut i: usize = 0;
    proof {
        assert(files@.take(0) =~= Seq::<Entry>::empty());
        assert(views(rows@) =~= Seq::<Seq<char>>::empty());
    }
    while i < files.len()
        invariant
            i <= files@.len(),
            extended_rows(files@.take(i as int), max_file_name_width as nat) == Ok::<
                _,
                FileEntryParsingError,
            >(views(rows@)),
            rows@.len() == i,
            lines_non_empty(views(rows@)),
            paths_without_feeds(files@) ==> lines_without_feeds(views(rows@)),
        decreases files@.len() - i,
    {
        let ghost before = rows@;
        let row = format_file_entry_with_ext_attr(&files[i], max_file_name_width);
        proof {
            if paths_without_feeds(files@) {
                assert(path_without_feed(files@[i as int]));
            }
        }
        proof {
            assert(files@.take(i + 1).drop_last() =~= files@.take(i as int));
            assert(files@.take(i + 1).last() == files@[i as int]);
        }
        match row {
            Ok(row) => {
                rows.push(row);
                proof {
                    assert(views(rows@) =~= views(before).push(rows@.last()@));
                    assert(views(rows@)[i as int] == rows@.last()@);
                }
            },
            Err(e) => {
                proof {
                    lemma_extended_rows_error_persists(files@, i as int, max_file_name_width as nat);
                    if all_render(files@, true) {
                        assert(renders(files@[i as int], true));
                    }
                }
                return Err(e);
            },
        }
        i = i + 1;
    }
    proof {
        assert(files@.take(files@.len() as int) =~= files@);
    }
    Ok(rows)
}

/// Once a prefix of the files fails, every longer prefix fails the same way.
proof fn lemma_extended_rows_error_persists(files: Seq<Entry>, i: int, w: nat)
    requires
        0 <= i < files.len(),
        extended_rows(files.take(i + 1), w) is Err,
    ensures
        extended_rows(files, w) == extended_rows(files.take(i + 1), w),
    decreases files.len() - i,
{
    if i + 1 == files.len() {
        assert(files.take(i + 1) =~= files);
    } else {
        assert(files.take(i + 2).drop_last() =~= files.take(i + 1));
        lemma_extended_rows_error_persists(files, i + 1, w);
    }
}

/// Once a prefix of the entries fails, every longer prefix fails the same way.
proof fn lemma_plain_rows_error_persists(icon: Seq<char>, entries: Seq<Entry>, i: int)
    requires
        0 <= i < entries.len(),
        plain_rows(icon, entries.take(i + 1)) is Err,
    ensures
        plain_rows(icon, entries) == plain_rows(icon, entries.take(i + 1)),
    decreases entries.len() - i,
{
    if i + 1 == entries.len() {
        assert(entries.take(i + 1) =~= entries);
    } else {
        assert(entries.take(i + 2).drop_last() =~= entries.take(i + 1));
        lemma_plain_rows_error_persists(icon, entries, i + 1);
    }
}

/// The path of an entry as text.
fn convert_dir_entry_to_str(dir_entry: &Entry) -> (r: Result<String, FileEntryParsingError>)
    ensures
        match dir_entry.path {
            Some(p) => r matches Ok(s) && s@ == p@,
            None => r == Err::<String, _>(FileEntryParsingError::FileNameInvalidUnicode),
        },
{
    match &dir_entry.path {
        Some(name) => Ok(name.clone()),
        None => Err(FileEntryParsingError::FileNameInvalidUnicode),
    }
}

/// Renders each entry as `icon`, a space and its path, in order; stops at
/// the first entry whose path is not valid Unicode.
fn format_each_entry(dir_entries: &Vec<Entry>, icon: &str) -> (r: Result<
    Vec<String>,
    FileEntryParsingError,
>)
    ensures
        match r {
            Ok(rows) => plain_rows(icon@, dir_entries@) == Ok::<_, FileEntryParsingError>(
                views(rows@),
            ),
            Err(e) => plain_rows(icon@, dir_entries@) == Err::<Seq<Seq<char>>, _>(e),
        },
        r matches Ok(rows) ==> rows@.len() == dir_entries@.len() && lines_non_empty(views(rows@))
            && (has_no_line_feed(icon@) && paths_without_feeds(dir_entries@)
            ==> lines_without_feeds(views(rows@))),
        all_render(dir_entries@, false) ==> r is Ok,
{
    let mut rows: Vec<String> = Vec::new();
    let mut i: usize = 0;
    proof {
        assert(dir_entries@.take(0) =~= Seq::<Entry>::empty());
        assert(views(rows@) =~= Seq::<Seq<char>>::empty());
    }
    while i < dir_entries.len()
        invariant
            i <= dir_entries@.len(),
            plain_rows(icon@, dir_entries@.take(i as int)) == Ok::<_, FileEntryParsingError>(
                views(rows@),
            ),
            rows@.len() == i,
            lines_non_empty(views(rows@)),
            has_no_line_feed(icon@) && paths_without_feeds(dir_entries@) ==> lines_without_feeds(
                views(rows@),
            ),
        decreases dir_entries@.len() - i,
    {
        let ghost before = rows@;
        proof {
            assert(dir_entries@.take(i + 1).drop_last() =~= dir_entries@.take(i as int));
            assert(dir_entries@.take(i + 1).last() == dir_entries@[i as int]);
        }
        match convert_dir_entry_to_str(&dir_entries[i]) {
            Ok(file_name) => {
                let mut row = String::from_str(icon);
                row.append(" ");
                row.append(file_name.as_str());
                proof {
                    reveal_strlit(" ");
                    assert(row@ =~= icon@ + seq![' '] + file_name@);
                    if has_no_line_feed(icon@) && paths_without_feeds(dir_entries@) {
                        assert(path_without_feed(dir_entries@[i as int]));
                        assert(has_no_line_feed(seq![' ']));
                        lemma_concat_no_line_feed(icon@, seq![' ']);
                        lemma_concat_no_line_feed(icon@ + seq![' '], file_name@);
                    }
                }
                rows.push(row);
                proof {
                    assert(views(rows@) =~= views(before).push(rows@.last()@));
                    assert(views(rows@)[i as int] == rows@.last()@);
                }
            },
            Err(e) => {
                proof {
                    lemma_plain_rows_error_persists(icon@, dir_entries@, i as int);
                    if all_render(dir_entries@, false) {
                        assert(renders(dir_entries@[i as int], false));
                    }
                }
                return Err(e);
            },
        }
        i = i + 1;
    }
    proof {
        assert(dir_entries@.take(dir_entries@.len() as int) =~= dir_entries@);
    }
    Ok(rows)
}


/// A heading: `name` followed by spaces up to `width` grapheme clusters
/// (none when it is already that long).
pub open spec fn heading(name: Seq<char>, width: nat) -> Seq<char> {
    let n = graphemes_of(name).len();
    if n >= width {
        name
    } else {
        name + repeat_char(' ', (width - n) as nat)
    }
}

/// Pads `name` with spaces to a heading of `head_width` grapheme clusters.
pub fn create_heading_of_width(head_width: usize, name: &str) -> (r: String)
    ensures
        r@ == heading(name@, head_width as nat),
        has_no_line_feed(name@) ==> has_no_line_feed(r@),
{
    let n = grapheme_clusters(name).len();
    let mut r = String::from_str(name);
    if n < head_width {
        proof {
            reveal_strlit(" ");
        }
        let spacer = repeat_str(" ", head_width - n);
        r.append(spacer.as_str());
        proof {
            lemma_concat_no_line_feed_padding(name@, (head_width - n) as nat);
        }
    }
    r
}

/// The smaller of two naturals.
pub open spec fn min_nat(a: nat, b: nat) -> nat {
    if a <= b {
        a
    } else {
        b
    }
}

/// Width of the name heading: room for the longest path and four spaces,
/// but no more than the display leaves beside the other headings.
pub open spec fn name_heading_width(width: nat, longest: nat) -> nat {
    min_nat(longest + 4, (width - 60) as nat)
}

/// Width of the name cell of every extended row: the longest path, but no
/// more than the display leaves beside the other cells.
pub open spec fn name_column_width(width: nat, longest: nat) -> nat {
    min_nat((width - RESERVED_LENGTH) as nat, longest)
}

/// The two header lines: the headings, then a rule of `width` `=` signs.
pub open spec fn header_lines(extended: bool, width: nat, longest: nat) -> Seq<Seq<char>> {
    let rule = repeat_char('=', width);
    if extended {
        seq![
            heading("Name"@, name_heading_width(width, longest)) + heading("Date Created"@, 24)
                + heading("Permissions"@, 13) + heading("Date Modified"@, 24),
            rule,
        ]
    } else {
        seq!["Name:"@, rule]
    }
}

/// The header of the extended listing.
pub fn create_extended_attr_header(width: usize, longest: usize) -> (r: Vec<String>)
    requires
        width > 80,
    ensures
        views(r@) == header_lines(true, width as nat, longest as nat),
        lines_without_feeds(views(r@)),
{
    proof {
        reveal_strlit("Name");
        reveal_strlit("Date Created");
        reveal_strlit("Date Modified");
        reveal_strlit("Permissions");
    }
    let date_created_heading = create_heading_of_width(24usize, "Date Created");
    let date_modified_heading = create_heading_of_width(24usize, "Date Modified");
    let permissions_heading = create_heading_of_width(13usize, "Permissions");
    let remaining_width = if longest <= width - 64 {
        longest + 4
    } else {
        width - 60
    };
    let mut header = create_heading_of_width(remaining_width, "Name");
    header.append(date_created_heading.as_str());
    header.append(permissions_heading.as_str());
    header.append(date_modified_heading.as_str());
    proof {
        reveal_strlit("=");
    }
    let rule = repeat_str("=", width);
    let r = vec![header, rule];
    proof {
        assert(views(r@) =~= header_lines(true, width as nat, longest as nat));
        assert(has_no_line_feed(rule@));
        lemma_concat_no_line_feed(heading("Name"@, remaining_width as nat), date_created_heading@);
        lemma_concat_no_line_feed(
            heading("Name"@, remaining_width as nat) + date_created_heading@,
            permissions_heading@,
        );
        lemma_concat_no_line_feed(
            heading("Name"@, remaining_width as nat) + date_created_heading@ + permissions_heading@,
            date_modified_heading@,
        );
        assert(views(r@)[0] == header@);
        assert(views(r@)[1] == rule@);
    }
    r
}


/// What a listing is made from: the mode, the display width and the entries.
pub struct FormattingCommand {
    extended_attr: bool,
    width: usize,
    files: Vec<Entry>,
    directories: Vec<Entry>,
}

/// The contents of a `FormattingCommand`.
pub struct CommandView {
    pub extended_attr: bool,
    pub width: nat,
    pub files: Seq<Entry>,
    pub directories: Seq<Entry>,
}

impl View for FormattingCommand {
    type V = CommandView;

    closed spec fn view(&self) -> CommandView {
        CommandView {
            extended_attr: self.extended_attr,
            width: self.width as nat,
            files: self.files@,
            directories: self.directories@,
        }
    }
}

impl FormattingCommand {
    pub fn new(extended_attr: bool, width: usize, files: Vec<Entry>, directories: Vec<Entry>) -> (r:
        Self)
        ensures
            r@ == (CommandView {
                extended_attr,
                width: width as nat,
                files: files@,
                directories: directories@,
            }),
    {
        FormattingCommand { extended_attr, width, files, directories }
    }
}

/// The length of an entry's path in grapheme clusters (zero when the path is
/// not valid Unicode).
pub open spec fn path_extent(e: Entry) -> nat {
    match e.path {
        Some(p) => graphemes_of(p@).len(),
        None => 0,
    }
}

/// The longest path among `entries`, in grapheme clusters.
pub open spec fn longest_extent(entries: Seq<Entry>) -> nat
    decreases entries.len(),
{
    if entries.len() == 0 {
        0
    } else {
        let rest = longest_extent(entries.drop_last());
        let last = path_extent(entries.last());
        if rest >= last {
            rest
        } else {
            last
        }
    }
}

/// The extent of a listing: its longest path, or `None` when it is empty.
pub open spec fn extent_of(files: Seq<Entry>, directories: Seq<Entry>) -> Option<nat> {
    if files.len() + directories.len() == 0 {
        None
    } else {
        Some(longest_extent(files + directories))
    }
}

/// Folds the extents of `entries` into `longest`.
fn longest_of(entries: &Vec<Entry>, longest: usize, seen: Ghost<Seq<Entry>>) -> (r: usize)
    requires
        longest == longest_extent(seen@),
    ensures
        r == longest_extent(seen@ + entries@),
{
    let mut longest = longest;
    let mut i: usize = 0;
    proof {
        assert(seen@ + entries@.take(0) =~= seen@);
    }
    while i < entries.len()
        invariant
            i <= entries@.len(),
            longest == longest_extent(seen@ + entries@.take(i as int)),
        decreases entries@.len() - i,
    {
        let n = match &entries[i].path {
            Some(path) => grapheme_clusters(path.as_str()).len(),
            None => 0,
        };
        proof {
            let next = seen@ + entries@.take(i + 1);
            assert(next.drop_last() =~= seen@ + entries@.take(i as int));
            assert(next.last() == entries@[i as int]);
        }
        if n > longest {
            longest = n;
        }
        i = i + 1;
    }
    proof {
        assert(entries@.take(entries@.len() as int) =~= entries@);
    }
    longest
}

/// The longest path of the listing in grapheme clusters, or `None` when the
/// listing has no entries.
fn analyse_longest(command: &FormattingCommand) -> (r: Option<usize>)
    ensures
        match r {
            Some(n) => extent_of(command@.files, command@.directories) == Some(n as nat),
            None => extent_of(command@.files, command@.directories) is None,
        },
{
    if command.files.len() == 0 && command.directories.len() == 0 {
        return None;
    }
    let longest = longest_of(&command.files, 0, Ghost(Seq::empty()));
    proof {
        assert(Seq::<Entry>::empty() + command.files@ =~= command.files@);
    }
    let longest = longest_of(&command.directories, longest, Ghost(command.files@));
    Some(longest)
}

/// The file rows: with their attributes in extended mode, else plain.
pub open spec fn file_rows(c: CommandView, longest: nat) -> Result<
    Seq<Seq<char>>,
    FileEntryParsingError,
> {
    if c.extended_attr {
        extended_rows(c.files, name_column_width(c.width, longest))
    } else {
        plain_rows(FLOPPY@, c.files)
    }
}

/// Renders the file rows of the listing.
fn orchestrate_formatting(command: &FormattingCommand, longest: usize) -> (r: Result<
    Vec<String>,
    FileEntryParsingError,
>)
    requires
        !(command@.extended_attr && command@.width <= 80),
    ensures
        match r {
            Ok(rows) => file_rows(command@, longest as nat) == Ok::<_, FileEntryParsingError>(
                views(rows@),
            ),
            Err(e) => file_rows(command@, longest as nat) == Err::<Seq<Seq<char>>, _>(e),
        },
        r matches Ok(rows) ==> rows@.len() == command@.files.len() && lines_non_empty(views(rows@))
            && (paths_without_feeds(command@.files) ==> lines_without_feeds(views(rows@))),
        all_render(command@.files, command@.extended_attr) ==> r is Ok,
{
    proof {
        reveal_strlit("\u{1F4BE}");
        if all_render(command@.files, command@.extended_attr) {
            assert(all_render(command@.files, false));
        }
        assert(has_no_line_feed(FLOPPY@));
    }
    if command.extended_attr {
        let available_filename_space = command.width - RESERVED_LENGTH;
        let file_name_target_length = if available_filename_space > longest {
            longest
        } else {
            available_filename_space
        };
        format_each_ext_attr_entry(&command.files, file_name_target_length)
    } else {
        format_each_entry(&command.files, FLOPPY)
    }
}

/// Joins `lines` with line feeds.
fn join_with_newlines(lines: &Vec<String>) -> (r: String)
    ensures
        r@ == join_lines(views(lines@)),
{
    let mut r = String::new();
    let mut i: usize = 0;
    proof {
        reveal_strlit("\n");
        assert(views(lines@).take(0) =~= Seq::<Seq<char>>::empty());
    }
    while i < lines.len()
        invariant
            i <= lines@.len(),
            r@ == join_lines(views(lines@).take(i as int)),
            "\n"@ == seq!['\n'],
        decreases lines@.len() - i,
    {
        if i > 0 {
            r.append("\n");
        }
        r.append(lines[i].as_str());
        proof {
            let next = views(lines@).take(i + 1);
            assert(next.drop_last() =~= views(lines@).take(i as int));
            if i == 0 {
                assert(r@ =~= next[0]);
            } else {
                assert(r@ =~= join_lines(next.drop_last()) + seq!['\n'] + next.last());
            }
        }
        i = i + 1;
    }
    proof {
        assert(views(lines@).take(lines@.len() as int) =~= views(lines@));
    }
    r
}

/// The report for a listing: its header lines, then one row per file, then
/// one row per directory, joined by line feeds. Extended mode on a display of
/// 80 columns or fewer is refused first; an empty listing next; then the first
/// entry that cannot be rendered, files before directories.
pub open spec fn report_of(c: CommandView) -> Result<Seq<char>, FileEntryParsingError> {
    if c.extended_attr && c.width <= 80 {
        Err(FileEntryParsingError::MinimumWidthViolation)
    } else if c.files.len() + c.directories.len() == 0 {
        Err(FileEntryParsingError::UnableToCalculatePathLengths)
    } else {
        let longest = longest_extent(c.files + c.directories);
        match file_rows(c, longest) {
            Err(e) => Err(e),
            Ok(frs) => match plain_rows(FOLDER@, c.directories) {
                Err(e) => Err(e),
                Ok(drs) => Ok(join_lines(header_lines(c.extended_attr, c.width, longest) + frs + drs)),
            },
        }
    }
}

/// Formatting is deterministic: two requests with the same contents give the
/// same report, character for character, or the same error.
pub proof fn lemma_formatting_is_deterministic(a: FormattingCommand, b: FormattingCommand)
    requires
        a@ == b@,
    ensures
        report_of(a@) == report_of(b@),
{
}

/// Formats a listing as one text block (see `report_of`). Extended mode on a
/// display of 80 columns or fewer always fails; a non-empty listing whose
/// entries all render succeeds; a report whose paths hold no line feed has
/// two header lines and one line per entry.
pub fn generate_textual_display(command: FormattingCommand) -> (r: Result<
    String,
    FileEntryParsingError,
>)
    ensures
        match r {
            Ok(s) => report_of(command@) == Ok::<_, FileEntryParsingError>(s@),
            Err(e) => report_of(command@) == Err::<Seq<char>, _>(e),
        },
        command@.extended_attr && command@.width <= 80 ==> r matches Err(
            FileEntryParsingError::MinimumWidthViolation,
        ),
        r matches Ok(s) ==> (paths_without_feeds(command@.files) && paths_without_feeds(
            command@.directories,
        ) ==> line_count(s@) == 2 + command@.files.len() + command@.directories.len()),
        !(command@.extended_attr && command@.width <= 80) && command@.files.len()
            + command@.directories.len() > 0 && all_render(command@.files, command@.extended_attr)
            && all_render(command@.directories, false) ==> r is Ok,
{
    if command.extended_attr && command.width <= 80 {
        return Err(FileEntryParsingError::MinimumWidthViolation);
    }
    let longest = match analyse_longest(&command) {
        Some(longest) => longest,
        None => return Err(FileEntryParsingError::UnableToCalculatePathLengths),
    };
    let mut header_row = if command.extended_attr {
        create_extended_attr_header(command.width, longest)
    } else {
        proof {
            reveal_strlit("=");
        }
        vec![String::from_str("Name:"), repeat_str("=", command.width)]
    };
    let mut string_list_of_files = orchestrate_formatting(&command, longest)?;
    let mut string_list_of_dirs = format_each_entry(&command.directories, FOLDER)?;
    proof {
        reveal_strlit("\u{1F4C1}");
        reveal_strlit("Name:");
        assert(has_no_line_feed(FOLDER@));
        assert(has_no_line_feed(views(header_row@)[0]));
        assert(has_no_line_feed(views(header_row@)[1]));
    }
    let ghost h = header_row@;
    let ghost f = string_list_of_files@;
    let ghost d = string_list_of_dirs@;
    header_row.append(&mut string_list_of_files);
    header_row.append(&mut string_list_of_dirs);
    proof {
        assert(header_row@ =~= h + f + d);
        assert(views(header_row@) =~= views(h) + views(f) + views(d));
        assert(views(h) =~= header_lines(command@.extended_attr, command@.width, longest as nat));
        let lines = views(header_row@);
        if paths_without_feeds(command@.files) && paths_without_feeds(command@.directories) {
            assert(lines_without_feeds(lines)) by {
                assert forall|i: int| 0 <= i < lines.len() implies has_no_line_feed(
                    #[trigger] lines[i],
                ) by {
                    if i < 2 {
                        assert(lines[i] == views(h)[i]);
                    } else if i < 2 + f.len() {
                        assert(lines[i] == views(f)[i - 2]);
                    } else {
                        assert(lines[i] == views(d)[i - 2 - f.len()]);
                    }
                }
            }
            let last = lines.len() - 1;
            if d.len() > 0 {
                assert(lines[last] == views(d)[d.len() - 1]);
            } else {
                assert(lines[last] == views(f)[f.len() - 1]);
            }
            lemma_join_line_count(lines);
        }
    }
    Ok(join_with_newlines(&header_row))
}

} // verus!
