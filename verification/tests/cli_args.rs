use annotate_output::cli::{parse_args, CliAction};

fn args_of(words: &[&str]) -> Vec<Vec<u8>> {
    words.iter().map(|w| w.as_bytes().to_vec()).collect()
}

#[test]
fn help_flag_asks_for_usage() {
    assert!(matches!(parse_args(&args_of(&["-h"])), CliAction::Help));
    assert!(matches!(parse_args(&args_of(&["-help"])), CliAction::Help));
    assert!(matches!(parse_args(&args_of(&["--help"])), CliAction::Help));
}

#[test]
fn no_program_asks_for_usage() {
    assert!(matches!(parse_args(&Vec::new()), CliAction::Help));
    assert!(matches!(parse_args(&args_of(&["+%T"])), CliAction::Help));
}

#[test]
fn format_argument_is_taken_off() {
    match parse_args(&args_of(&["+%s", "true"])) {
        CliAction::Launch { fmt, argv } => {
            assert_eq!(fmt, b"%s".to_vec());
            assert_eq!(argv, vec![b"true".to_vec()]);
        }
        CliAction::Help => panic!("expected a launch"),
    }
}

#[test]
fn default_format_applies() {
    match parse_args(&args_of(&["echo", "hi"])) {
        CliAction::Launch { fmt, argv } => {
            assert_eq!(fmt, b"%H:%M:%S".to_vec());
            assert_eq!(argv, vec![b"echo".to_vec(), b"hi".to_vec()]);
        }
        CliAction::Help => panic!("expected a launch"),
    }
}

#[test]
fn help_flag_after_program_is_passed_through() {
    match parse_args(&args_of(&["echo", "-h"])) {
        CliAction::Launch { fmt: _, argv } => {
            assert_eq!(argv, vec![b"echo".to_vec(), b"-h".to_vec()]);
        }
        CliAction::Help => panic!("expected a launch"),
    }
}

#[test]
fn empty_format_argument() {
    match parse_args(&args_of(&["+", "date"])) {
        CliAction::Launch { fmt, argv } => {
            assert_eq!(fmt, Vec::<u8>::new());
            assert_eq!(argv, vec![b"date".to_vec()]);
        }
        CliAction::Help => panic!("expected a launch"),
    }
}
