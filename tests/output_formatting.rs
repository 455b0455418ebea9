use mini_ls::entry::{Entry, EntryKind, EntryMetadata, Timestamp};
use mini_ls::output_formatting::{
    create_extended_attr_header, create_heading_of_width, generate_textual_display,
    set_file_name_length, FormattingCommand, DATE_FORMAT, FLOPPY, FOLDER, RESERVED_LENGTH,
};
use mini_ls::FileEntryParsingError;
use unicode_segmentation::UnicodeSegmentation;

const TEMP_DIR: &str = "/tmp/.tmpQ2xv8Z";
const FILE_1_NAME: &str = "file_1.txt";
const FILE_2_NAME: &str = "file_2.txt";
const LONG_FILE_NAME: &str =
    "very_long_filename_to_check_for_shortening_of_filename_on_small_consoles.txt";
/// 2023-11-14 22:13:20.123 UTC
const CREATED: Timestamp = Timestamp { secs: 1_700_000_000, nanos: 123_456_789 };
/// 2024-02-29 12:00:00.007 UTC
const MODIFIED: Timestamp = Timestamp { secs: 1_709_208_000, nanos: 7_000_000 };

fn entry(path: &str, kind: EntryKind, read_only: bool) -> Entry {
    Entry {
        path: Some(String::from(path)),
        kind,
        metadata: Ok(EntryMetadata { created_at: CREATED, modified_at: MODIFIED, read_only }),
    }
}

fn in_temp(name: &str) -> String {
    format!("{}/{}", TEMP_DIR, name)
}

/// Two files and one directory, as a directory read would give them.
fn setup_test() -> (Vec<Entry>, Vec<Entry>) {
    let files = vec![
        entry(&in_temp(FILE_1_NAME), EntryKind::File, false),
        entry(&in_temp(FILE_2_NAME), EntryKind::File, false),
    ];
    let directories = vec![entry(&in_temp("other"), EntryKind::Directory, false)];
    (files, directories)
}

/// A short file and one whose full path is at least 80 clusters long, and a
/// directory; the width equals the long path's length.
fn setup_long_name_test() -> (String, usize, Vec<Entry>, Vec<Entry>) {
    let file_1 = in_temp(FILE_1_NAME);
    let long_file_name = if file_1.len() < 80 {
        let missing_graphmes = 80 - file_1.len();
        let suffix = "0".repeat(missing_graphmes);
        suffix + LONG_FILE_NAME
    } else {
        LONG_FILE_NAME.to_string()
    };
    let file_2_full_path = in_temp(&long_file_name);
    let files = vec![
        entry(&file_1, EntryKind::File, false),
        entry(&file_2_full_path, EntryKind::File, false),
    ];
    let directories = vec![entry(&in_temp("other"), EntryKind::Directory, false)];
    let compressed_width = file_2_full_path.graphemes(true).count();
    (file_2_full_path, compressed_width, files, directories)
}

fn is_date_text(t: &str) -> bool {
    let chars: Vec<char> = t.chars().collect();
    chars.len() == 23
        && chars.iter().enumerate().all(|(i, c)| match i {
            4 | 7 => *c == '-',
            10 => *c == ' ',
            13 | 16 => *c == ':',
            19 => *c == '.',
            _ => c.is_ascii_digit(),
        })
}

#[test]
fn non_extended_output_contains_header_row() {
    let (file_entries, directories) = setup_test();
    let command = FormattingCommand::new(false, 200, file_entries, directories);
    let content = generate_textual_display(command).unwrap();
    let lines_of_content = content.split('\n').collect::<Vec<&str>>();
    let header_row = lines_of_content.get(0).unwrap();
    assert!(header_row.starts_with("Name"));
    assert!(!header_row.contains("Date Created"));
    assert!(!header_row.contains("Date Modified"));
    assert!(!header_row.contains("Permissions"));
}

#[test]
fn includes_folder_icon_for_sub_folders() {
    let (file_entries, directories) = setup_test();
    let command = FormattingCommand::new(false, 100, file_entries, directories);
    let content = generate_textual_display(command).unwrap();
    assert_eq!(content.lines().filter(|line| line.starts_with(FOLDER)).count(), 1);
}

#[test]
fn contains_seperator_row() {
    let (file_entries, directories) = setup_test();
    let command = FormattingCommand::new(false, 100, file_entries, directories);
    let content = generate_textual_display(command).unwrap();
    let expected_row = "=".repeat(100);
    assert!(content.contains(&expected_row));
}

#[test]
fn contains_a_header_for_extra_attributes_when_configured() {
    let (file_entries, directories) = setup_test();
    let command = FormattingCommand::new(true, 100, file_entries, directories);
    let content = generate_textual_display(command).unwrap();
    assert!(content.starts_with("Name"));
    assert!(content.contains("Date Created"));
    assert!(content.contains("Date Modified"));
    assert!(content.contains("Permissions"));
}

#[test]
fn does_not_contain_ext_attrs_headers_when_not_set() {
    let (file_entries, directories) = setup_test();
    let command = FormattingCommand::new(false, 400, file_entries, directories);
    let contents = generate_textual_display(command).unwrap();
    assert!(!contents.contains("Date Created"));
    assert!(!contents.contains("Date Modified"));
    assert!(!contents.contains("Permissions"));
}

#[test]
fn file_names_shortened_for_small_terminals_when_ext_attr_set() {
    let (file_1_full_path, compressed_width, files, directories) = setup_long_name_test();
    let command = FormattingCommand::new(true, compressed_width, files, directories);
    let contents = generate_textual_display(command).unwrap();
    let lines_of_content: Vec<&str> = contents.split('\n').collect();
    let first_file_line = lines_of_content.get(2).unwrap();
    let second_file_line = lines_of_content.get(3).unwrap();
    let target_line = if first_file_line.contains("very_long") {
        first_file_line
    } else {
        second_file_line
    };
    assert_eq!(target_line.len(), compressed_width);
    assert!(!target_line.contains(file_1_full_path.as_str()));
    let expected_content_chars: Vec<&str> = file_1_full_path
        .graphemes(true)
        .take(compressed_width - RESERVED_LENGTH)
        .collect();
    let expected_content = expected_content_chars.join("");
    assert!(target_line.contains(&expected_content));
}

#[test]
fn there_is_always_space_between_fields() {
    let (_file_1_full_path, compressed_width, files, directories) = setup_long_name_test();
    let command = FormattingCommand::new(true, compressed_width, files, directories);
    let contents = generate_textual_display(command).unwrap();
    let lines_of_content: Vec<&str> = contents.split('\n').collect();
    let first_file_line = lines_of_content.get(2).unwrap();
    let second_file_line = lines_of_content.get(3).unwrap();
    let target_line = if first_file_line.contains("very_long") {
        first_file_line
    } else {
        second_file_line
    };
    let n_space_sep_components = target_line.split_ascii_whitespace().count();
    // icon, name, date and time created, permissions, date and time modified
    assert_eq!(n_space_sep_components, 7);
}

#[test]
fn contents_should_align_to_columns() {
    let (files, directories) = setup_test();
    let command = FormattingCommand::new(true, 200, files, directories);
    let contents = generate_textual_display(command).unwrap();
    let lines: Vec<&str> = contents.split('\n').collect();
    let title_line = lines[0];
    let title_line_words: Vec<&str> = title_line.split("Date").collect();
    let file_name_header = title_line_words[0];
    let file_name_line = lines.into_iter().find(|line| line.contains("file_1")).unwrap();
    let expected_date_str = "2023-11-14 22:13:20.123";
    let file_name_line_sections: Vec<&str> = file_name_line.split(expected_date_str).collect();
    let file_name_column = file_name_line_sections[0];
    assert_eq!(
        file_name_header.graphemes(true).count(),
        file_name_column.graphemes(true).count() + 1 // for extra space
    )
}

#[test]
fn paths_should_pad_to_max_length() {
    let file_1 = in_temp(FILE_1_NAME);
    let long_file_name = if file_1.len() < 80 {
        let missing_graphmes = 80 - file_1.len();
        let suffix = "0".repeat(missing_graphmes);
        suffix + LONG_FILE_NAME
    } else {
        LONG_FILE_NAME.to_string()
    };
    let file_2_full_path = in_temp(&long_file_name);
    let files = vec![
        entry(&file_1, EntryKind::File, false),
        entry(&file_2_full_path, EntryKind::File, false),
    ];
    let directories = vec![entry(&in_temp("other"), EntryKind::Directory, false)];
    let max_name_width = file_2_full_path.graphemes(true).count();
    let always_sufficient_length = max_name_width + 70;
    let command = FormattingCommand::new(true, always_sufficient_length, files, directories);
    let contents = generate_textual_display(command).unwrap();

    let contents_as_lines: Vec<&str> = contents.split('\n').collect();
    let first_path_line =
        contents_as_lines.iter().find(|line| line.contains("very_long_filename")).unwrap();
    let second_path_line = contents_as_lines.iter().find(|line| line.contains(FILE_1_NAME)).unwrap();
    assert_eq!(first_path_line.len(), second_path_line.len());
    let expected_date_str = "2023-11-14";
    assert!(second_path_line.contains(expected_date_str));
    let file_2_parts: Vec<&str> = second_path_line.split(expected_date_str).collect();
    let file_1_parts: Vec<&str> = first_path_line.split(expected_date_str).collect();
    assert_eq!(
        file_2_parts[0].graphemes(true).count(),
        file_1_parts[0].graphemes(true).count()
    );
}

#[test]
fn plain_listing_of_two_files_and_a_directory() {
    let files = vec![
        entry("file_1.txt", EntryKind::File, false),
        entry("file_2.txt", EntryKind::File, false),
    ];
    let directories = vec![entry("sub", EntryKind::Directory, false)];
    let report = generate_textual_display(FormattingCommand::new(false, 100, files, directories))
        .unwrap();
    let lines: Vec<&str> = report.lines().collect();
    assert_eq!(lines.len(), 5);
    assert!(lines[0].starts_with("Name:"));
    assert_eq!(lines[0], "Name:");
    assert_eq!(lines[1], "=".repeat(100));
    assert_eq!(lines[2], format!("{} file_1.txt", FLOPPY));
    assert_eq!(lines[3], format!("{} file_2.txt", FLOPPY));
    assert_eq!(lines[4], format!("{} sub", FOLDER));
}

#[test]
fn extended_listing_shows_dates_and_permissions() {
    let files = vec![
        entry("file_1.txt", EntryKind::File, true),
        entry("file_2.txt", EntryKind::File, false),
    ];
    let directories = vec![entry("sub", EntryKind::Directory, false)];
    let report = generate_textual_display(FormattingCommand::new(true, 400, files, directories))
        .unwrap();
    let lines: Vec<&str> = report.lines().collect();
    assert_eq!(lines.len(), 5);
    assert!(lines[0].contains("Date Created"));
    assert!(lines[0].contains("Date Modified"));
    assert!(lines[0].contains("Permissions"));
    for row in &lines[2..4] {
        assert!(row.contains("read only") != row.contains("writable"));
        let after_name: Vec<&str> = row.splitn(3, ' ').collect();
        let rest = after_name[2].trim_start();
        assert!(is_date_text(&rest[..23]));
    }
    assert!(lines[2].contains("read only"));
    assert!(lines[3].contains("writable"));
    assert_eq!(
        lines[2],
        format!("{} file_1.txt 2023-11-14 22:13:20.123 read only    2024-02-29 12:00:00.007", FLOPPY)
    );
    assert_eq!(lines[4], format!("{} sub", FOLDER));
}

#[test]
fn extended_header_is_padded_to_column_widths() {
    let files = vec![entry("file_1.txt", EntryKind::File, false)];
    let report =
        generate_textual_display(FormattingCommand::new(true, 100, files, vec![])).unwrap();
    let lines: Vec<&str> = report.lines().collect();
    let expected = format!(
        "{}{}{}{}",
        "Name          ",
        "Date Created            ",
        "Permissions  ",
        "Date Modified           "
    );
    assert_eq!(lines[0], expected);
    assert_eq!(lines[1], "=".repeat(100));
}

#[test]
fn compressed_name_cell_is_a_strict_prefix_of_the_path() {
    let path = format!("/{}", "d".repeat(89));
    assert_eq!(path.graphemes(true).count(), 90);
    let width = 90;
    let files = vec![entry(&path, EntryKind::File, false)];
    let report =
        generate_textual_display(FormattingCommand::new(true, width, files, vec![])).unwrap();
    let lines: Vec<&str> = report.lines().collect();
    let row = lines[2];
    let cell_start = FLOPPY.len() + 1;
    let cell = &row[cell_start..cell_start + (width - RESERVED_LENGTH)];
    assert_eq!(cell.len(), width - RESERVED_LENGTH);
    assert_eq!(cell.len(), 24);
    assert!(path.starts_with(cell));
    assert!(cell.len() < path.len());
    assert_eq!(row.as_bytes()[cell_start + 24], b' ');
    assert_eq!(row.len(), width);
}

#[test]
fn report_has_two_header_lines_and_one_per_entry() {
    let files = vec![
        entry("a", EntryKind::File, false),
        entry("b", EntryKind::File, true),
        entry("c", EntryKind::File, false),
    ];
    let directories = vec![
        entry("d1", EntryKind::Directory, false),
        entry("d2", EntryKind::Directory, false),
    ];
    let report = generate_textual_display(FormattingCommand::new(true, 120, files, directories))
        .unwrap();
    assert_eq!(report.lines().count(), 2 + 3 + 2);
    let only_dir = vec![entry("d", EntryKind::Directory, false)];
    let report =
        generate_textual_display(FormattingCommand::new(false, 10, vec![], only_dir)).unwrap();
    assert_eq!(report.lines().count(), 3);
}

#[test]
fn formatting_twice_gives_identical_reports() {
    let first = {
        let (files, directories) = setup_test();
        generate_textual_display(FormattingCommand::new(true, 150, files, directories)).unwrap()
    };
    let second = {
        let (files, directories) = setup_test();
        generate_textual_display(FormattingCommand::new(true, 150, files, directories)).unwrap()
    };
    assert_eq!(first.as_bytes(), second.as_bytes());
}

#[test]
fn extended_mode_on_narrow_display_fails_whatever_the_entries() {
    let (files, directories) = setup_test();
    let result = generate_textual_display(FormattingCommand::new(true, 80, files, directories));
    assert!(matches!(result, Err(FileEntryParsingError::MinimumWidthViolation)));
    let result = generate_textual_display(FormattingCommand::new(true, 3, vec![], vec![]));
    assert!(matches!(result, Err(FileEntryParsingError::MinimumWidthViolation)));
    let (files, directories) = setup_test();
    assert!(generate_textual_display(FormattingCommand::new(true, 81, files, directories)).is_ok());
}

#[test]
fn empty_listing_is_refused_in_plain_mode_too() {
    let result = generate_textual_display(FormattingCommand::new(false, 100, vec![], vec![]));
    assert!(matches!(result, Err(FileEntryParsingError::UnableToCalculatePathLengths)));
}

#[test]
fn invalid_unicode_path_aborts_the_report() {
    let files = vec![entry("ok.txt", EntryKind::File, false)];
    let directories = vec![Entry { path: None, kind: EntryKind::Directory, metadata: Ok(EntryMetadata { created_at: CREATED, modified_at: MODIFIED, read_only: false }) }];
    let result = generate_textual_display(FormattingCommand::new(false, 100, files, directories));
    assert!(matches!(result, Err(FileEntryParsingError::FileNameInvalidUnicode)));
}

#[test]
fn missing_metadata_aborts_the_extended_report() {
    let files = vec![
        entry("ok.txt", EntryKind::File, false),
        Entry {
            path: Some(String::from("broken.txt")),
            kind: EntryKind::File,
            metadata: Err(std::io::ErrorKind::PermissionDenied),
        },
    ];
    let result = generate_textual_display(FormattingCommand::new(true, 100, files, vec![]));
    match result {
        Err(FileEntryParsingError::MissingMetaDataError { original_error }) => {
            assert_eq!(original_error, std::io::ErrorKind::PermissionDenied)
        }
        _ => panic!("expected a metadata error"),
    }
}

#[test]
fn missing_metadata_does_not_matter_in_plain_mode() {
    let files = vec![Entry {
        path: Some(String::from("broken.txt")),
        kind: EntryKind::File,
        metadata: Err(std::io::ErrorKind::PermissionDenied),
    }];
    let report = generate_textual_display(FormattingCommand::new(false, 20, files, vec![])).unwrap();
    assert!(report.ends_with("broken.txt"));
}

#[test]
fn timestamp_beyond_the_calendar_is_refused() {
    let files = vec![Entry {
        path: Some(String::from("future.txt")),
        kind: EntryKind::File,
        metadata: Ok(EntryMetadata {
            created_at: Timestamp { secs: i64::MAX, nanos: 0 },
            modified_at: MODIFIED,
            read_only: false,
        }),
    }];
    let result = generate_textual_display(FormattingCommand::new(true, 100, files, vec![]));
    assert!(matches!(result, Err(FileEntryParsingError::InvalidTimestamp)));
}

#[test]
fn date_cell_uses_the_date_pattern() {
    assert_eq!(DATE_FORMAT, "%Y-%m-%d %H:%M:%S%.3f");
    let files = vec![entry("x", EntryKind::File, false)];
    let report = generate_textual_display(FormattingCommand::new(true, 100, files, vec![])).unwrap();
    assert!(report.contains("2023-11-14 22:13:20.123"));
    assert!(report.contains("2024-02-29 12:00:00.007"));
    assert!(is_date_text("2023-11-14 22:13:20.123"));
}

#[test]
fn name_cell_pads_short_names_with_spaces() {
    assert_eq!(set_file_name_length(6, "abc"), "abc   ");
    assert_eq!(set_file_name_length(3, "abc"), "abc");
    assert_eq!(set_file_name_length(2, "e\u{301}x"), "e\u{301}x");
    assert_eq!(set_file_name_length(0, ""), "");
}

#[test]
fn name_cell_cuts_long_names() {
    assert_eq!(set_file_name_length(2, "abcdef"), "ab");
    assert_eq!(set_file_name_length(0, "abc"), "");
}

#[test]
fn name_cell_counts_grapheme_clusters() {
    let accented = "e\u{301}xyz";
    assert_eq!(set_file_name_length(2, accented), "e\u{301}x");
    assert_eq!(set_file_name_length(3, "e\u{301}"), "e\u{301}  ");
    let thumbs = "a\u{1F44D}\u{1F3FD}b";
    assert_eq!(set_file_name_length(2, thumbs), "a\u{1F44D}\u{1F3FD}");
    assert_eq!(set_file_name_length(2, thumbs).graphemes(true).count(), 2);
}

#[test]
fn heading_is_padded_to_its_width() {
    assert_eq!(create_heading_of_width(10, "Name"), "Name      ");
    assert_eq!(create_heading_of_width(2, "Name"), "Name");
}

#[test]
fn extended_header_name_column_follows_longest_path() {
    let header = create_extended_attr_header(200, 10);
    assert_eq!(header.len(), 2);
    assert!(header[0].starts_with("Name          Date Created"));
    let narrow = create_extended_attr_header(90, 100);
    assert!(narrow[0].starts_with(&format!("Name{}Date Created", " ".repeat(26))));
    assert_eq!(narrow[1], "=".repeat(90));
}
