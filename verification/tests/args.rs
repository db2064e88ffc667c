use folderwalk::args::{parse_args, parse_number, ArgError, Command, Config};

fn parse(args: &[&str]) -> Result<Command, ArgError> {
    let v: Vec<String> = args.iter().map(|s| s.to_string()).collect();
    parse_args(&v)
}

fn run(args: &[&str]) -> Config {
    match parse(args) {
        Ok(Command::Run(c)) => c,
        other => panic!("{:?}", other),
    }
}

fn message(args: &[&str]) -> String {
    match parse(args) {
        Err(e) => e.message(),
        other => panic!("{:?}", other),
    }
}

#[test]
fn no_arguments_give_the_defaults() {
    let c = run(&[]);
    assert_eq!(c.start_dir, None);
    assert_eq!(c.max_depth, None);
    assert!(!c.ascii);
    assert!(!c.show_content);
    assert!(!c.to_stdout);
}

#[test]
fn a_path_and_every_flag() {
    let c = run(&["some/dir", "--max-depth", "3", "--ascii", "--content", "--stdout"]);
    assert_eq!(c.start_dir, Some("some/dir".to_string()));
    assert_eq!(c.max_depth, Some(3));
    assert!(c.ascii);
    assert!(c.show_content);
    assert!(c.to_stdout);
}

#[test]
fn short_flags() {
    let c = run(&["-c", "-o"]);
    assert!(c.show_content);
    assert!(c.to_stdout);
    assert!(!c.ascii);
}

#[test]
fn the_path_may_stand_anywhere() {
    assert_eq!(run(&["--ascii", "p"]).start_dir, Some("p".to_string()));
    assert_eq!(run(&["--max-depth", "0", "p", "-c"]).start_dir, Some("p".to_string()));
    assert_eq!(run(&[""]).start_dir, Some("".to_string()));
}

#[test]
fn the_last_max_depth_counts() {
    assert_eq!(run(&["--max-depth", "1", "--max-depth", "7"]).max_depth, Some(7));
    assert_eq!(run(&["--max-depth", "0"]).max_depth, Some(0));
}

#[test]
fn help_ends_the_reading() {
    assert!(matches!(parse(&["--help"]), Ok(Command::Help)));
    assert!(matches!(parse(&["-h"]), Ok(Command::Help)));
    assert!(matches!(parse(&["p", "--ascii", "-h", "--bogus", "q", "r"]), Ok(Command::Help)));
}

#[test]
fn an_error_before_help_wins() {
    assert!(matches!(parse(&["--bogus", "--help"]), Err(ArgError::UnknownFlag(_))));
    assert!(matches!(parse(&["a", "b", "--help"]), Err(ArgError::ExtraPath)));
}

#[test]
fn unknown_flags_are_refused() {
    assert_eq!(message(&["--bogus"]), "Unknown flag: --bogus");
    assert_eq!(message(&["p", "-x"]), "Unknown flag: -x");
    assert_eq!(message(&["-"]), "Unknown flag: -");
    assert_eq!(message(&["--"]), "Unknown flag: --");
    assert_eq!(message(&["--ASCII"]), "Unknown flag: --ASCII");
    match parse(&["--max-depth=3"]) {
        Err(ArgError::UnknownFlag(flag)) => assert_eq!(flag, "--max-depth=3"),
        other => panic!("{:?}", other),
    }
}

#[test]
fn a_second_path_is_refused() {
    assert_eq!(message(&["a", "b"]), "Only one path argument is allowed");
    assert!(matches!(parse(&["a", "--ascii", "b"]), Err(ArgError::ExtraPath)));
}

#[test]
fn max_depth_needs_a_value() {
    assert_eq!(message(&["--max-depth"]), "--max-depth requires a value");
    assert!(matches!(parse(&["p", "--max-depth"]), Err(ArgError::MissingDepthValue)));
}

#[test]
fn max_depth_needs_a_number() {
    assert_eq!(message(&["--max-depth", "x"]), "Invalid --max-depth value");
    assert!(matches!(parse(&["--max-depth", "-1"]), Err(ArgError::InvalidDepthValue)));
    assert!(matches!(parse(&["--max-depth", "--ascii"]), Err(ArgError::InvalidDepthValue)));
    assert!(matches!(parse(&["--max-depth", ""]), Err(ArgError::InvalidDepthValue)));
    assert!(matches!(parse(&["--max-depth", "1.5"]), Err(ArgError::InvalidDepthValue)));
    assert!(matches!(
        parse(&["--max-depth", "99999999999999999999999999"]),
        Err(ArgError::InvalidDepthValue)
    ));
}

#[test]
fn max_depth_takes_the_next_argument_whatever_it_is() {
    assert_eq!(run(&["--max-depth", "2", "3"]).start_dir, Some("3".to_string()));
    assert_eq!(run(&["--max-depth", "+4"]).max_depth, Some(4));
}

#[test]
fn parse_number_reads_digits() {
    assert_eq!(parse_number("0"), Some(0));
    assert_eq!(parse_number("7"), Some(7));
    assert_eq!(parse_number("42"), Some(42));
    assert_eq!(parse_number("007"), Some(7));
    assert_eq!(parse_number("+12"), Some(12));
    assert_eq!(parse_number("1234567890"), Some(1234567890));
}

#[test]
fn parse_number_refuses_everything_else() {
    assert_eq!(parse_number(""), None);
    assert_eq!(parse_number("+"), None);
    assert_eq!(parse_number("-1"), None);
    assert_eq!(parse_number("++1"), None);
    assert_eq!(parse_number("1+"), None);
    assert_eq!(parse_number(" 1"), None);
    assert_eq!(parse_number("1 "), None);
    assert_eq!(parse_number("12a"), None);
    assert_eq!(parse_number("a12"), None);
    assert_eq!(parse_number("١٢"), None);
    assert_eq!(parse_number("0x10"), None);
}

#[test]
fn parse_number_at_the_limit() {
    let max = usize::MAX.to_string();
    assert_eq!(parse_number(&max), Some(usize::MAX));
    let mut over = max.clone();
    over.push('0');
    assert_eq!(parse_number(&over), None);
    let beyond = format!("{}", usize::MAX as u128 + 1);
    assert_eq!(parse_number(&beyond), None);
    let padded = format!("000{}", usize::MAX);
    assert_eq!(parse_number(&padded), Some(usize::MAX));
}

#[test]
fn parse_number_agrees_with_parsing_a_string() {
    let texts = [
        "", "0", "+0", "-0", "1", "10", "+10", "٣", "18446744073709551615",
        "18446744073709551616", "4294967295", "4294967296", "999999999999999999999", "1e3", "+",
        "0000000000000000000000000000001",
    ];
    for t in texts.iter() {
        assert_eq!(parse_number(t), t.parse::<usize>().ok(), "{:?}", t);
    }
}
