use mini_ls::arg_processing::{expand_home, file_output_decision, ArgParsingError, Config};

#[test]
fn obtains_the_dir_from_args() {
    let args = vec![String::from("./mini-ls"), String::from("~/dev")];
    let config = Config::build(args).unwrap();
    assert_eq!(config.target, "~/dev");
}

#[test]
fn extracts_f_arg_to_config() {
    let args = vec![
        String::from("./mini-ls"),
        String::from("-F"),
        String::from("log.txt"),
        String::from("~/dev"),
    ];
    let config = Config::build(args).unwrap();
    assert!(config.to_file);
}

#[test]
fn extracts_target_dir_when_f_arg() {
    let args = vec![
        String::from("./mini-ls"),
        String::from("-F"),
        String::from("log.txt"),
        String::from("~/dev"),
    ];
    let config = Config::build(args).unwrap();
    assert_eq!(config.target, "~/dev");
}

#[test]
fn returns_an_error_if_missing_file_for_output_with_f_flag() {
    let args = vec![
        String::from("./mini-ls"),
        String::from("-F"),
        String::from("~/dev"),
    ];
    let config = Config::build(args);
    // `~/dev` is the file name of `-F`; it is refused as missing where it
    // names an existing directory, and taken as the output file elsewhere.
    let home_dev = dirs::home_dir().unwrap().join("dev");
    if home_dev.is_dir() {
        assert!(config.is_err());
        let error = config.err().unwrap();
        assert_eq!(error.to_string(), "missing file argument for -F flag")
    } else {
        let config = config.unwrap();
        assert!(config.to_file);
        assert_eq!(config.target_file, home_dev.to_str().unwrap());
    }
}

#[test]
fn accepts_flags_concatenated_with_options() {
    let args = vec![
        String::from("./mini-ls"),
        String::from("-Flog.txt"),
        String::from("~/dev"),
    ];
    let config = Config::build(args).unwrap();
    assert_eq!(config.target, "~/dev");
    assert!(config.to_file);
    assert_eq!(config.target_file, "log.txt");
}

#[test]
fn target_dir_is_working_dir_if_un_supplied_with_concat_args() {
    let args = vec![String::from("./mini-ls"), String::from("-Flog.txt")];
    let config = Config::build(args).unwrap();
    assert_eq!(config.target, "./");
}

#[test]
fn target_dir_is_working_dir_if_un_supplied_with_args() {
    let args = vec![
        String::from("./mini-ls"),
        String::from("-F"),
        String::from("log.txt"),
    ];
    let config = Config::build(args).unwrap();
    assert_eq!(config.target, "./");
}

#[test]
fn target_dir_is_working_dir_if_un_supplied_with_no_args() {
    let args = vec![String::from("./mini-ls")];
    let config = Config::build(args).unwrap();
    assert_eq!(config.target, "./");
}

#[test]
fn config_includes_extended_arg_if_passed() {
    let args = vec![String::from("./mini-ls"), String::from("-l")];
    let config = Config::build(args).unwrap();
    assert!(config.extended_attributes);
}

#[test]
fn config_includes_l_arg_if_concatenated() {
    let args = vec![
        String::from("./mini-ls"),
        String::from("-lF"),
        String::from("log.txt"),
    ];
    let config = Config::build(args).unwrap();
    assert!(config.extended_attributes);
}

#[test]
fn finds_all_flags() {
    let args = vec![
        String::from("./mini-ls"),
        String::from("-lF"),
        String::from("log.txt"),
    ];
    let config = Config::build(args).unwrap();
    assert!(config.extended_attributes);
    assert!(config.to_file);
    assert_eq!(config.target_file, "log.txt");
}

#[test]
fn empty_command_line_lists_working_dir() {
    let config = Config::build(vec![]).unwrap();
    assert_eq!(config.target, "./");
    assert!(!config.to_file);
    assert_eq!(config.target_file, "");
    assert!(!config.extended_attributes);
}

#[test]
fn unknown_short_switch_is_ignored() {
    let args = vec![
        String::from("./mini-ls"),
        String::from("-x"),
        String::from("some/dir"),
    ];
    let config = Config::build(args).unwrap();
    assert_eq!(config.target, "some/dir");
    assert!(!config.to_file);
    assert!(!config.extended_attributes);
}

#[test]
fn lone_f_switch_without_file_is_refused() {
    let args = vec![String::from("./mini-ls"), String::from("-F")];
    let error = Config::build(args).err().unwrap();
    assert!(matches!(error, ArgParsingError::MissingFileOption));
}

#[test]
fn f_switch_followed_by_another_switch_is_refused() {
    let args = vec![
        String::from("./mini-ls"),
        String::from("-F"),
        String::from("-l"),
    ];
    let error = Config::build(args).err().unwrap();
    assert!(matches!(error, ArgParsingError::MissingFileOption));
}

#[test]
fn f_switch_before_l_in_block_has_no_file() {
    let args = vec![
        String::from("./mini-ls"),
        String::from("-Fl"),
        String::from("log.txt"),
    ];
    let error = Config::build(args).err().unwrap();
    assert!(matches!(error, ArgParsingError::MissingFileOption));
}

#[test]
fn output_file_that_is_a_directory_is_refused() {
    let args = vec![
        String::from("./mini-ls"),
        String::from("-F"),
        String::from("/"),
    ];
    let error = Config::build(args).err().unwrap();
    assert!(matches!(error, ArgParsingError::MissingFileOption));
}

#[test]
fn block_value_containing_l_also_sets_extended() {
    let args = vec![String::from("./mini-ls"), String::from("-Flog.txt")];
    let config = Config::build(args).unwrap();
    assert!(config.extended_attributes);
    assert_eq!(config.target_file, "log.txt");
}

#[test]
fn home_shorthand_is_expanded_everywhere() {
    let expanded = expand_home("~/logs/~out.txt", Some(String::from("/home/ann"))).unwrap();
    assert_eq!(expanded, "/home/ann/logs//home/annout.txt");
}

#[test]
fn home_shorthand_without_home_is_refused() {
    let error = expand_home("~/log.txt", None).err().unwrap();
    match error {
        ArgParsingError::UnexpectedArgument { argument } => assert_eq!(argument, "~/log.txt"),
        _ => panic!("expected an unexpected-argument error"),
    }
}

#[test]
fn path_without_home_shorthand_is_kept() {
    let kept = expand_home("logs/out.txt", None).unwrap();
    assert_eq!(kept, "logs/out.txt");
}

#[test]
fn unexpected_argument_message_names_it() {
    let error = ArgParsingError::UnexpectedArgument { argument: String::from("x") };
    assert_eq!(error.to_string(), "unexpected argument provided of x");
}

#[test]
fn directory_as_output_file_is_refused_as_missing() {
    let result = file_output_decision(String::from("/home/ann/dev"), true);
    assert!(matches!(result, Err(ArgParsingError::MissingFileOption)));
}

#[test]
fn other_output_path_is_written_to() {
    let (to_file, path) = file_output_decision(String::from("log.txt"), false).unwrap();
    assert!(to_file);
    assert_eq!(path, "log.txt");
}

#[test]
fn block_with_two_file_switches_takes_the_next_word_as_value() {
    let args = vec![
        String::from("./mini-ls"),
        String::from("-FF"),
        String::from("log.txt"),
    ];
    let config = Config::build(args);
    assert!(matches!(config.err().unwrap(), ArgParsingError::MissingFileOption));
    let args = vec![
        String::from("./mini-ls"),
        String::from("-lF"),
        String::from("log.txt"),
        String::from("some/dir"),
    ];
    let config = Config::build(args).unwrap();
    assert_eq!(config.target, "some/dir");
}
