use asp_spectra::lines::split_lines;

fn lines(text: &str) -> Vec<String> {
    split_lines(text.as_bytes())
        .into_iter()
        .map(|line| String::from_utf8(line).unwrap())
        .collect()
}

fn std_lines(text: &str) -> Vec<String> {
    text.lines().map(|line| line.to_string()).collect()
}

#[test]
fn empty_text_has_no_lines() {
    assert_eq!(lines(""), Vec::<String>::new());
}

#[test]
fn last_line_needs_no_ending() {
    assert_eq!(lines("a\nb"), vec!["a", "b"]);
    assert_eq!(lines("a\nb\n"), vec!["a", "b"]);
    assert_eq!(lines("a"), vec!["a"]);
}

#[test]
fn empty_lines_are_lines() {
    assert_eq!(lines("\n"), vec![""]);
    assert_eq!(lines("\n\n"), vec!["", ""]);
    assert_eq!(lines("a\n\nb\n"), vec!["a", "", "b"]);
}

#[test]
fn carriage_return_before_line_feed_belongs_to_the_ending() {
    assert_eq!(lines("a\r\nb\r\n"), vec!["a", "b"]);
    assert_eq!(lines("\r\n"), vec![""]);
    assert_eq!(lines("a\r\r\n"), vec!["a\r"]);
}

#[test]
fn carriage_return_alone_ends_nothing() {
    assert_eq!(lines("a\rb"), vec!["a\rb"]);
    assert_eq!(lines("a\r"), vec!["a\r"]);
    assert_eq!(lines("a\n\r"), vec!["a", "\r"]);
}

#[test]
fn lines_of_the_scenario_file() {
    assert_eq!(
        lines("3\n4000.0\n3000.0\n0.91\n0.85\n0.80\n"),
        vec!["3", "4000.0", "3000.0", "0.91", "0.85", "0.80"]
    );
}

#[test]
fn lines_agree_with_the_standard_library() {
    let texts = [
        "", "\n", "\r", "\r\n", "a", "a\n", "a\r\n", "a\r", "\na", "\r\na", "a\n\n", "a\r\n\r\n",
        "a\n\r\n", "a\r\n\n", "\n\n\n", "x\ry\nz", "one\ntwo\r\nthree", "one\ntwo\r\nthree\r",
        "4000.0\n\n\n0.5\n", " \n \n", "\r\r\n\r", "caf\u{e9}\nna\u{ef}ve\r\n",
    ];
    for text in texts {
        assert_eq!(lines(text), std_lines(text));
    }
}
