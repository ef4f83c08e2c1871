use rustos::fib::{bar, fib, foo};
use rustos::shell::{
    cd_target, echo_text, ls_options, Command, Error, Keystroke, LineEditor, Listing, ARGS_MAX,
    LINE_MAX,
};

fn words(line: &str) -> Result<Vec<String>, Error> {
    Command::parse(line.as_bytes(), ARGS_MAX)
        .map(|c| c.args.iter().map(|w| String::from_utf8(w.clone()).unwrap()).collect())
}

fn command(line: &str) -> Command {
    Command::parse(line.as_bytes(), ARGS_MAX).unwrap()
}

#[test]
fn line_is_taken_apart_at_spaces() {
    assert_eq!(words("echo hello world"), Ok(vec!["echo".into(), "hello".into(), "world".into()]));
    assert_eq!(words("  ls   -a  /bin  "), Ok(vec!["ls".into(), "-a".into(), "/bin".into()]));
    assert_eq!(words("pwd"), Ok(vec!["pwd".into()]));
    assert_eq!(words("a\tb"), Ok(vec!["a\tb".into()]));
    assert_eq!(command("cat x").path(), b"cat");
}

#[test]
fn line_without_words_is_empty() {
    assert_eq!(words(""), Err(Error::Empty));
    assert_eq!(words(" "), Err(Error::Empty));
    assert_eq!(words("      "), Err(Error::Empty));
    assert_eq!(Command::parse(b"", 0), Err(Error::Empty));
}

#[test]
fn line_with_too_many_words_is_refused() {
    let many = vec!["w"; ARGS_MAX].join(" ");
    assert_eq!(words(&many).unwrap().len(), ARGS_MAX);
    let more = vec!["w"; ARGS_MAX + 1].join(" ");
    assert_eq!(words(&more), Err(Error::TooManyArgs));
    assert_eq!(Command::parse(b"a b", 1), Err(Error::TooManyArgs));
    assert_eq!(Command::parse(b"a", 0), Err(Error::TooManyArgs));
    assert!(Command::parse(b"a b", 2).is_ok());
}

#[test]
fn typed_bytes_are_echoed_and_kept() {
    let mut editor = LineEditor::new();
    assert_eq!(editor.feed(0), Keystroke { echo: vec![], done: false });
    assert_eq!(editor.feed(b'l'), Keystroke { echo: vec![b'l'], done: false });
    assert_eq!(editor.feed(0), Keystroke { echo: vec![0], done: false });
    assert_eq!(editor.line(), &vec![b'l', 0]);
    assert_eq!(editor.feed(0x7f), Keystroke { echo: vec![8, b' ', 8], done: false });
    assert_eq!(editor.feed(b'x'), Keystroke { echo: vec![b'x'], done: false });
    assert_eq!(editor.feed(0x08), Keystroke { echo: vec![8, b' ', 8], done: false });
    assert_eq!(editor.feed(b's'), Keystroke { echo: vec![b's'], done: false });
    assert_eq!(editor.feed(0x80), Keystroke { echo: vec![7], done: false });
    assert_eq!(editor.feed(0xff), Keystroke { echo: vec![7], done: false });
    assert_eq!(editor.line(), &b"ls".to_vec());
    assert_eq!(editor.feed(b'\r'), Keystroke { echo: vec![b'\r', b'\n'], done: true });
    assert_eq!(editor.take(), Ok(command("ls")));
    assert!(editor.line().is_empty());
    assert_eq!(editor.feed(b'\n'), Keystroke { echo: vec![b'\n', b'\n'], done: true });
    assert_eq!(editor.take(), Err(Error::Empty));
}

#[test]
fn deletion_in_an_empty_line_rings_the_bell() {
    let mut editor = LineEditor::new();
    assert_eq!(editor.feed(0x7f), Keystroke { echo: vec![7], done: false });
    assert_eq!(editor.feed(0x08), Keystroke { echo: vec![7], done: false });
    assert!(editor.line().is_empty());
}

#[test]
fn full_line_rings_the_bell() {
    let mut editor = LineEditor::new();
    for _ in 0..LINE_MAX - 1 {
        assert_eq!(editor.feed(b'a'), Keystroke { echo: vec![b'a'], done: false });
    }
    assert_eq!(editor.line().len(), 511);
    assert_eq!(editor.feed(b'b'), Keystroke { echo: vec![7], done: false });
    assert_eq!(editor.line().len(), 511);
    assert_eq!(editor.feed(0x7f), Keystroke { echo: vec![8, b' ', 8], done: false });
    assert_eq!(editor.feed(b'b'), Keystroke { echo: vec![b'b'], done: false });
    assert_eq!(editor.feed(b'\n').done, true);
    assert_eq!(editor.take().unwrap().args[0].len(), 511);
}

#[test]
fn listing_takes_a_flag_and_a_directory() {
    let here = || b".".to_vec();
    assert_eq!(ls_options(&command("ls")), Some(Listing { hidden: false, dir: here() }));
    assert_eq!(ls_options(&command("ls -a")), Some(Listing { hidden: true, dir: here() }));
    assert_eq!(ls_options(&command("ls /bin")), Some(Listing { hidden: false, dir: b"/bin".to_vec() }));
    assert_eq!(ls_options(&command("ls -a /bin")), Some(Listing { hidden: true, dir: b"/bin".to_vec() }));
    assert_eq!(ls_options(&command("ls -a -a")), Some(Listing { hidden: true, dir: b"-a".to_vec() }));
    assert_eq!(ls_options(&command("ls -b")), Some(Listing { hidden: false, dir: b"-b".to_vec() }));
    assert_eq!(ls_options(&command("ls /bin -a")), None);
    assert_eq!(ls_options(&command("ls -a /bin /etc")), None);
    assert_eq!(ls_options(&command("ls a b c d")), None);
}

#[test]
fn change_of_directory_takes_one_directory() {
    assert_eq!(cd_target(&command("cd")), Some(b"/".to_vec()));
    assert_eq!(cd_target(&command("cd docs")), Some(b"docs".to_vec()));
    assert_eq!(cd_target(&command("cd a b")), None);
}

#[test]
fn echo_joins_the_words_with_spaces() {
    assert_eq!(echo_text(&command("echo")), b"");
    assert_eq!(echo_text(&command("echo one")), b"one");
    assert_eq!(echo_text(&command("echo  one   two three ")), b"one two three");
}

#[test]
fn fibonacci_numbers_count_from_one() {
    assert_eq!(fib(0), 1);
    assert_eq!(fib(1), 1);
    assert_eq!(fib(2), 2);
    assert_eq!(fib(10), 89);
    assert_eq!(fib(25), 121393);
    assert_eq!(bar(17), 0);
    assert_eq!(foo(), 74);
}
