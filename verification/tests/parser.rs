use stinpse::Parser;

fn match_result(test_number: usize, input: &str, expected: Vec<&str>) {
    let parser = Parser::parse(input);
    assert_eq!(
        *parser.get_args(),
        expected,
        "Test case {} failed: input = {}, expected = {:?}, actual = {:?}",
        test_number,
        input,
        expected,
        parser.get_args()
    );
}

fn args_of(input: &str) -> Vec<String> {
    Parser::parse(input).get_args().clone()
}

fn join(words: &[String]) -> String {
    let mut line = String::new();
    for (i, word) in words.iter().enumerate() {
        if i > 0 {
            line.push(' ');
        }
        line.push_str(word);
    }
    line
}

#[test]
fn test_parser() {
    let test_cases = vec![
        // Undefined number of arguments
        ("ls -l", vec!["ls", "-l"]),
        ("ls -l -a", vec!["ls", "-l", "-a"]),
        ("ls -l -a -h", vec!["ls", "-l", "-a", "-h"]),
        ("ls -l -a -h -b", vec!["ls", "-l", "-a", "-h", "-b"]),
        ("ls -l -a -h -b -c", vec!["ls", "-l", "-a", "-h", "-b", "-c"]),
        ("ls -l -a -h -b -c -d", vec!["ls", "-l", "-a", "-h", "-b", "-c", "-d"]),
        // Single quotes
        ("ls 'ls -l'", vec!["ls", "ls -l"]),
        ("ls 'ls -l' -a", vec!["ls", "ls -l", "-a"]),
        ("ls 'ls -l' -a -h", vec!["ls", "ls -l", "-a", "-h"]),
        ("ls 'ls -l' -a -h -b", vec!["ls", "ls -l", "-a", "-h", "-b"]),
        ("ls 'ls -l' -a -h -b -c", vec!["ls", "ls -l", "-a", "-h", "-b", "-c"]),
        // Double quotes
        ("ls \"ls -l\"", vec!["ls", "ls -l"]),
        ("ls \"ls -l\" -a", vec!["ls", "ls -l", "-a"]),
        ("ls \"ls -l\" -a -h", vec!["ls", "ls -l", "-a", "-h"]),
        ("ls \"ls -l\" -a -h -b", vec!["ls", "ls -l", "-a", "-h", "-b"]),
        ("ls \"ls -l\" -a -h -b -c", vec!["ls", "ls -l", "-a", "-h", "-b", "-c"]),
    ];

    for (i, (input, expected)) in test_cases.iter().enumerate() {
        match_result(i + 1, input, expected.to_vec());
    }
}

#[test]
fn new_parser_has_no_arguments() {
    let parser = Parser::new("ls -l");
    assert!(parser.get_args().is_empty());
}

#[test]
fn empty_input_has_no_arguments() {
    assert_eq!(args_of(""), Vec::<String>::new());
}

#[test]
fn two_words() {
    assert_eq!(args_of("ls -l"), vec!["ls", "-l"]);
}

#[test]
fn seven_words() {
    assert_eq!(
        args_of("ls -l -a -h -b -c -d"),
        vec!["ls", "-l", "-a", "-h", "-b", "-c", "-d"]
    );
}

#[test]
fn single_quoted_argument_between_words() {
    assert_eq!(args_of("ls 'ls -l' -a"), vec!["ls", "ls -l", "-a"]);
}

#[test]
fn double_quoted_argument_between_words() {
    assert_eq!(args_of("ls \"ls -l\" -a -h"), vec!["ls", "ls -l", "-a", "-h"]);
}

#[test]
fn words_then_both_kinds_of_quotes() {
    assert_eq!(
        args_of("ls -l -a -h -b -c -d 'ls -l' \"ls -l\""),
        vec!["ls", "-l", "-a", "-h", "-b", "-c", "-d", "ls -l", "ls -l"]
    );
}

#[test]
fn single_quotes_keep_spaces() {
    assert_eq!(args_of("'a b'"), vec!["a b"]);
    assert_eq!(args_of("'  a   b '"), vec!["  a   b "]);
}

#[test]
fn single_quotes_keep_backslashes_and_double_quotes() {
    assert_eq!(args_of("'a\\\"b\\\\c'"), vec!["a\\\"b\\\\c"]);
    assert_eq!(args_of("'say \"hi\"'"), vec!["say \"hi\""]);
}

#[test]
fn double_quotes_unescape_quote() {
    assert_eq!(args_of("\"a \\\" b\""), vec!["a \" b"]);
}

#[test]
fn double_quotes_unescape_backslash() {
    assert_eq!(args_of("\"a\\\\b\""), vec!["a\\b"]);
    assert_eq!(args_of("\"\\\\\\\"\""), vec!["\\\""]);
}

#[test]
fn double_quotes_keep_single_quotes() {
    assert_eq!(args_of("\"it's here\""), vec!["it's here"]);
}

#[test]
fn double_quotes_drop_other_backslashes() {
    assert_eq!(args_of("\"a\\nb\""), vec!["anb"]);
    assert_eq!(args_of("\"a\\ b\""), vec!["a b"]);
    assert_eq!(args_of("\"a\\'b\""), vec!["a'b"]);
}

#[test]
fn backslash_at_end_of_double_quoted_input_is_dropped() {
    assert_eq!(args_of("\"ab\\"), vec!["ab"]);
    assert_eq!(args_of("\"\\"), Vec::<String>::new());
}

#[test]
fn escaped_quote_does_not_close() {
    assert_eq!(args_of("\"a\\\" b c"), vec!["a\" b c"]);
}

#[test]
fn backslash_outside_quotes_is_content() {
    assert_eq!(args_of("a\\b c\\"), vec!["a\\b", "c\\"]);
    assert_eq!(args_of("a\\ b"), vec!["a\\", "b"]);
}

#[test]
fn runs_of_spaces_read_as_one() {
    let single = args_of("ls -l");
    assert_eq!(args_of("ls  -l"), single);
    assert_eq!(args_of("ls   -l"), single);
    assert_eq!(args_of("ls          -l"), single);
}

#[test]
fn leading_and_trailing_spaces_give_no_arguments() {
    assert_eq!(args_of("  ls -l  "), vec!["ls", "-l"]);
    assert_eq!(args_of("   "), Vec::<String>::new());
    assert_eq!(args_of(" "), Vec::<String>::new());
}

#[test]
fn adjacent_quoted_segments_join() {
    assert_eq!(args_of("a'b'c"), vec!["abc"]);
    assert_eq!(args_of("a\"b c\"'d e'f g"), vec!["ab cd ef", "g"]);
}

#[test]
fn unterminated_quotes_run_to_the_end() {
    assert_eq!(args_of("ls 'a b"), vec!["ls", "a b"]);
    assert_eq!(args_of("ls \"a b"), vec!["ls", "a b"]);
    assert_eq!(args_of("ls'"), vec!["ls"]);
    assert_eq!(args_of("'"), Vec::<String>::new());
}

#[test]
fn empty_quotes_give_no_argument() {
    assert_eq!(args_of("''"), Vec::<String>::new());
    assert_eq!(args_of("\"\""), Vec::<String>::new());
    assert_eq!(args_of("a '' b"), vec!["a", "b"]);
    assert_eq!(args_of("a \"\" b"), vec!["a", "b"]);
    assert_eq!(args_of("a''b"), vec!["ab"]);
}

#[test]
fn tabs_and_newlines_do_not_separate() {
    assert_eq!(args_of("a\tb\nc d"), vec!["a\tb\nc", "d"]);
}

#[test]
fn characters_beyond_ascii() {
    assert_eq!(args_of("héllo 'wörld ü' \"日本 語\""), vec!["héllo", "wörld ü", "日本 語"]);
}

#[test]
fn single_word() {
    assert_eq!(args_of("ls"), vec!["ls"]);
    assert_eq!(args_of("x"), vec!["x"]);
}

#[test]
fn single_spaced_words_come_back() {
    let words: Vec<String> = vec!["cargo", "build", "--release", "-j8", "a\\b"]
        .into_iter()
        .map(String::from)
        .collect();
    assert_eq!(args_of(&join(&words)), words);
}

#[test]
fn rejoined_arguments_reparse() {
    let first = args_of("  tar   -xzf  archive.tar.gz    -C /tmp ");
    assert_eq!(first, vec!["tar", "-xzf", "archive.tar.gz", "-C", "/tmp"]);
    assert_eq!(args_of(&join(&first)), first);
}

#[test]
fn escaped_text_in_double_quotes_comes_back() {
    let text = "a \"b\" \\ c's";
    let mut line = String::from("\"");
    for c in text.chars() {
        if c == '"' || c == '\\' {
            line.push('\\');
        }
        line.push(c);
    }
    line.push('"');
    assert_eq!(args_of(&line), vec![text]);
}

#[test]
fn no_argument_is_empty() {
    for input in ["", " ", "a  b", "'' \"\" a", " 'x' \"\" '' y ", "\"\\\""] {
        assert!(args_of(input).iter().all(|arg| !arg.is_empty()));
    }
}

#[test]
fn arguments_keep_the_order_of_the_input() {
    assert_eq!(args_of("3 1 2 1"), vec!["3", "1", "2", "1"]);
}

#[test]
fn runs_of_spaces_after_closed_quotes_read_as_one() {
    let single = args_of("'a b' \"c \\\" d\" e");
    assert_eq!(single, vec!["a b", "c \" d", "e"]);
    assert_eq!(args_of("'a b'   \"c \\\" d\" e"), single);
    assert_eq!(args_of("'a b' \"c \\\" d\"     e"), single);
}

#[test]
fn spaces_inside_quotes_are_kept_as_they_are() {
    assert_eq!(args_of("'a  b'"), vec!["a  b"]);
    assert_eq!(args_of("\"a   b\""), vec!["a   b"]);
}
