use lexopt::Parser;
use max_rss::cli::{Args, ArgsError, Demand, Token};

fn args(words: &[&str]) -> Result<Args, ArgsError> {
    Args::parse_impl(Parser::from_args(words.iter().map(|word| word.to_string())))
}

fn strings(words: &[&str]) -> Vec<String> {
    words.iter().map(|word| word.to_string()).collect()
}

#[test]
fn command() {
    assert_eq!(args(&["--return-result", "--", "foo"]).unwrap().command, vec!["foo"]);
    assert_eq!(args(&["foo"]).unwrap().command, vec!["foo"]);
    assert_eq!(
        args(&["foo", "--return-result"]).unwrap().command,
        vec!["foo", "--return-result"]
    );
    assert_eq!(
        args(&["--return-result", "foo", "--output=bar"]).unwrap().command,
        vec!["foo", "--output=bar"]
    );
}

#[test]
fn command_required() {
    assert!(args(&[]).is_err());
    assert!(args(&["--return-result"]).is_err());
    assert!(args(&["--return-result", "--"]).is_err());
}

#[test]
fn output() {
    assert_eq!(args(&["ls", "."]).unwrap().output, "./max_rss.json");
    assert_eq!(args(&["--output=foo", "ls", "."]).unwrap().output, "foo");
}

#[test]
fn return_result() {
    assert_eq!(args(&["foo"]).unwrap().return_result, false);
    assert_eq!(args(&["-r", "foo"]).unwrap().return_result, true);
    assert_eq!(args(&["--return-result", "foo"]).unwrap().return_result, true);
    assert_eq!(
        args(&["-r", "--no-return-result", "foo"]).unwrap().return_result,
        false
    );
    assert_eq!(
        args(&["--return-result", "--no-return-result", "foo"]).unwrap().return_result,
        false
    );
}

#[test]
fn parse_takes_plain_strings() {
    let parsed = Args::parse(strings(&["-r", "-o", "out.json", "sleep", "1"])).unwrap();
    assert!(parsed.return_result);
    assert!(!parsed.debug);
    assert_eq!(parsed.output, "out.json");
    assert_eq!(parsed.command, vec!["sleep", "1"]);
}

#[test]
fn unknown_option_is_refused() {
    match Args::parse(strings(&["--frobnicate", "ls"])) {
        Err(ArgsError::Unexpected(Token::Long(name))) => assert_eq!(name, "frobnicate"),
        other => panic!("{:?}", other),
    }
}

#[test]
fn defaults() {
    let args = Args::default();
    assert!(!args.return_result);
    assert!(!args.debug);
    assert_eq!(args.output, "./max_rss.json");
    assert!(args.command.is_empty());
}

#[test]
fn last_toggle_wins() {
    assert!(args(&["--no-return-result", "-r", "foo"]).unwrap().return_result);
    assert!(args(&["-r", "--no-return-result", "--return-result", "foo"]).unwrap().return_result);
    assert!(!args(&["--no-return-result", "foo"]).unwrap().return_result);
}

#[test]
fn debug_toggle() {
    assert!(!args(&["foo"]).unwrap().debug);
    assert!(args(&["--debug", "foo"]).unwrap().debug);
    assert!(!args(&["foo", "--debug"]).unwrap().debug);
}

#[test]
fn output_takes_a_value_in_every_form() {
    assert_eq!(args(&["-o", "a.json", "ls"]).unwrap().output, "a.json");
    assert_eq!(args(&["-oa.json", "ls"]).unwrap().output, "a.json");
    assert_eq!(args(&["-o=a.json", "ls"]).unwrap().output, "a.json");
    assert_eq!(args(&["--output", "a.json", "ls"]).unwrap().output, "a.json");
    assert_eq!(args(&["--output=a.json", "ls"]).unwrap().output, "a.json");
    assert_eq!(args(&["-ro", "a.json", "ls"]).unwrap().output, "a.json");
    assert!(args(&["-ro", "a.json", "ls"]).unwrap().return_result);
    assert_eq!(args(&["-o", "-r", "ls"]).unwrap().output, "-r");
    assert!(!args(&["-o", "-r", "ls"]).unwrap().return_result);
    assert_eq!(args(&["-o", "a", "-o", "b", "ls"]).unwrap().output, "b");
    assert_eq!(args(&["-o", "a.json", "ls"]).unwrap().command, vec!["ls"]);
}

#[test]
fn output_needs_its_value() {
    assert!(matches!(args(&["-o"]), Err(ArgsError::Lexer(_))));
    assert!(matches!(args(&["--output"]), Err(ArgsError::Lexer(_))));
    assert!(matches!(args(&["-r", "--output"]), Err(ArgsError::Lexer(_))));
}

#[test]
fn toggles_take_no_value() {
    assert!(matches!(args(&["--return-result=yes", "ls"]), Err(ArgsError::Lexer(_))));
    assert!(matches!(args(&["-r=yes", "ls"]), Err(ArgsError::Lexer(_))));
}

#[test]
fn help_and_version_end_the_reading() {
    assert!(matches!(args(&["-h"]), Err(ArgsError::Help)));
    assert!(matches!(args(&["--help"]), Err(ArgsError::Help)));
    assert!(matches!(args(&["-v"]), Err(ArgsError::Version)));
    assert!(matches!(args(&["--version"]), Err(ArgsError::Version)));
    assert!(matches!(args(&["-h", "--frobnicate"]), Err(ArgsError::Help)));
    assert!(matches!(args(&["-rv", "ls"]), Err(ArgsError::Version)));
    assert!(matches!(args(&["--frobnicate", "-h"]), Err(ArgsError::Unexpected(_))));
    assert_eq!(args(&["ls", "-h"]).unwrap().command, vec!["ls", "-h"]);
    assert_eq!(args(&["--", "-h"]).unwrap().command, vec!["-h"]);
}

#[test]
fn no_command_is_an_error() {
    assert!(matches!(args(&[]), Err(ArgsError::NoCommand)));
    assert!(matches!(args(&["-r", "--debug", "-o", "x"]), Err(ArgsError::NoCommand)));
    assert!(matches!(args(&["--"]), Err(ArgsError::NoCommand)));
    assert!(matches!(Args::parse(Vec::new()), Err(ArgsError::NoCommand)));
}

#[test]
fn unknown_options_are_named() {
    match args(&["-x", "ls"]) {
        Err(ArgsError::Unexpected(token)) => assert_eq!(token, Token::Short('x')),
        other => panic!("{:?}", other),
    }
    match args(&["-rx", "ls"]) {
        Err(ArgsError::Unexpected(token)) => assert_eq!(token, Token::Short('x')),
        other => panic!("{:?}", other),
    }
    match args(&["--outputs", "ls"]) {
        Err(ArgsError::Unexpected(token)) => assert_eq!(token, Token::Long("outputs".to_string())),
        other => panic!("{:?}", other),
    }
}

#[test]
fn command_is_taken_as_it_stands() {
    assert_eq!(
        args(&["sh", "-c", "exit 3", "--", "-o=x", ""]).unwrap().command,
        vec!["sh", "-c", "exit 3", "--", "-o=x", ""]
    );
    assert_eq!(args(&["--", "--", "ls"]).unwrap().command, vec!["--", "ls"]);
    assert_eq!(args(&["-"]).unwrap().command, vec!["-"]);
    assert_eq!(args(&["", "x"]).unwrap().command, vec!["", "x"]);
}

#[test]
fn words_are_taken_one_by_one() {
    let mut args = Args::default();
    assert!(matches!(args.accept(Token::Short('r')), Demand::Nothing));
    assert!(args.return_result);
    assert!(matches!(args.accept(Token::Long("no-return-result".to_string())), Demand::Nothing));
    assert!(!args.return_result);
    assert!(matches!(args.accept(Token::Long("debug".to_string())), Demand::Nothing));
    assert!(args.debug);
    assert!(matches!(args.accept(Token::Short('o')), Demand::Output));
    assert!(matches!(args.accept(Token::Long("output".to_string())), Demand::Output));
    assert_eq!(args.output, "./max_rss.json");
    assert!(matches!(args.accept(Token::Short('h')), Demand::Stop(ArgsError::Help)));
    assert!(matches!(args.accept(Token::Long("version".to_string())), Demand::Stop(ArgsError::Version)));
    assert!(matches!(
        args.accept(Token::Long("Help".to_string())),
        Demand::Stop(ArgsError::Unexpected(Token::Long(_)))
    ));
    assert!(matches!(args.accept(Token::Short('R')), Demand::Stop(ArgsError::Unexpected(_))));
    assert!(matches!(args.finish(), Err(ArgsError::NoCommand)));

    let mut args = Args::default();
    assert!(matches!(args.accept(Token::Value("ls".to_string())), Demand::Rest));
    assert!(matches!(args.accept(Token::Value("-l".to_string())), Demand::Rest));
    assert_eq!(args.finish().unwrap().command, vec!["ls", "-l"]);
}

/// How much of the command line a parser has still before it: the bytes of
/// what it holds back of the argument it is in, and of the arguments it has
/// not taken up, with one more for each of them.
fn before(parser: &Parser) -> usize {
    let mut copy = parser.clone();
    let pending = copy.optional_value().map(|value| value.len() + 1).unwrap_or(0);
    let rest: usize = copy.raw_args().unwrap().map(|word| word.len() + 1).sum();
    pending + rest
}

/// The arguments that a parser has not taken up yet.
fn waiting(parser: &Parser) -> Vec<String> {
    let mut copy = parser.clone();
    let _ = copy.optional_value();
    let words = copy.raw_args().unwrap();
    words.map(|word| word.into_string().unwrap()).collect()
}

#[derive(PartialEq)]
enum Seen {
    End,
    TakesValue,
    Positional(String),
    Other,
}

fn seen(next: Result<Option<lexopt::Arg<'_>>, lexopt::Error>) -> Seen {
    match next {
        Ok(None) => Seen::End,
        Ok(Some(lexopt::Arg::Short('o'))) | Ok(Some(lexopt::Arg::Long("output"))) => Seen::TakesValue,
        Ok(Some(lexopt::Arg::Value(text))) => Seen::Positional(text.into_string().unwrap()),
        _ => Seen::Other,
    }
}

#[test]
fn lexer_always_moves_on() {
    let lines: [&[&str]; 16] = [
        &[],
        &["ls"],
        &["-r", "ls", "-l"],
        &["-rvh", "--", "x"],
        &["-abc=def", "-o", "x", "y"],
        &["-o=", "--output=", "--output", "", ""],
        &["--return-result=1", "--=", "-", "--", "--"],
        &["-=x", "-o"],
        &["--output"],
        &["-ro"],
        &["-\u{e9}\u{20ac}x", "--\u{e9}=\u{20ac}", "\u{e9}"],
        &["", "", ""],
        &["-o", "-o", "-o", "-o"],
        &["--a=b", "--c=d", "e", "--f=g"],
        &["--", "--", "x"],
        &["-r", "--", "-r", "--"],
    ];
    for line in lines {
        let mut parser = Parser::from_args(line.iter().map(|word| word.to_string()));
        let mut rounds = 0;
        loop {
            rounds += 1;
            assert!(rounds < 100);
            let ahead = before(&parser);
            let stood = waiting(&parser);
            let what = seen(parser.next());
            let stands = waiting(&parser);
            assert!(stood.ends_with(&stands), "{:?}", line);
            if what == Seen::End {
                break;
            }
            assert!(before(&parser) < ahead, "{:?}", line);
            let ahead = before(&parser);
            if what == Seen::TakesValue {
                let _ = parser.value();
                assert!(before(&parser) <= ahead, "{:?}", line);
                assert!(stands.ends_with(&waiting(&parser)), "{:?}", line);
            }
            if let Seen::Positional(text) = what {
                let behind_dashes = stood.len() >= 2 && stood[0] == "--";
                if behind_dashes {
                    assert_eq!(stood[1], text);
                    assert_eq!(stood[2..], stands[..]);
                } else {
                    assert_eq!(stood[0], text);
                    assert_eq!(stood[1..], stands[..]);
                }
                let taken: Vec<String> = parser
                    .raw_args()
                    .unwrap()
                    .map(|word| word.into_string().unwrap())
                    .collect();
                assert_eq!(taken, stands);
                assert!(waiting(&parser).is_empty());
                assert_eq!(before(&parser), 0);
            }
        }
    }
}

#[test]
fn same_line_same_result() {
    let line = ["-r", "--debug", "-o=x.json", "--", "cmd", "-r", "--", ""];
    let once = Args::parse(strings(&line)).unwrap();
    let twice = args(&line).unwrap();
    assert_eq!(once.return_result, twice.return_result);
    assert_eq!(once.debug, twice.debug);
    assert_eq!(once.output, twice.output);
    assert_eq!(once.command, twice.command);
    assert_eq!(once.command, vec!["cmd", "-r", "--", ""]);
}

#[test]
fn command_is_the_end_of_the_line() {
    let lines: [&[&str]; 6] = [
        &["ls"],
        &["-r", "--debug", "ls", "-r", "--", "-h"],
        &["--output=x", "--", "--help", "-v"],
        &["-o", "ls", "ls", "ls"],
        &["-ro=", "", "-o"],
        &["--", "--", "--"],
    ];
    for line in lines {
        let parsed = Args::parse(strings(line)).unwrap();
        assert!(!parsed.command.is_empty());
        assert!(line.ends_with(
            &parsed.command.iter().map(|word| word.as_str()).collect::<Vec<&str>>()
        ));
    }
    assert_eq!(args(&["-o", "ls", "ls", "ls"]).unwrap().command, vec!["ls", "ls"]);
    assert_eq!(args(&["--", "--", "--"]).unwrap().command, vec!["--", "--"]);
}
