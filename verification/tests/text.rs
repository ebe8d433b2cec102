use tuicr::text::{push_decimal, push_spaces, split_lines};

fn check_lines(text: &str) {
    let expected: Vec<String> = text.lines().map(|l| l.to_string()).collect();
    assert_eq!(split_lines(text), expected, "{:?}", text);
}

#[test]
fn lines_end_with_line_feeds() {
    assert_eq!(split_lines("alpha\nbeta\n"), vec!["alpha", "beta"]);
    assert_eq!(split_lines("a\r\nb\rc\r"), vec!["a", "b\rc\r"]);
    assert_eq!(split_lines("\n\n"), vec!["", ""]);
    assert!(split_lines("").is_empty());
    for text in [
        "", "\n", "\r", "\r\n", "a", "a\n", "a\r\n", "a\r\r\n", "\r\r", "x\ny", "x\n\ny\n",
        "é\r\n日本\n", "\n\r", "\ra\r\nb",
    ] {
        check_lines(text);
    }
}

#[test]
fn lines_make_up_the_text() {
    let text = "one\n\ntwo\nthree";
    let joined: String = split_lines(text).iter().map(|l| format!("{l}\n")).collect();
    assert_eq!(joined, format!("{text}\n"));
}

#[test]
fn numbers_are_decimal() {
    for n in [0, 7, 9, 10, 19, 100, 4096, 1_000_000, u32::MAX] {
        let mut out = String::from("n");
        push_decimal(&mut out, n);
        assert_eq!(out, format!("n{n}"));
    }
}

#[test]
fn spaces_are_counted() {
    let mut out = String::from("x");
    push_spaces(&mut out, 3);
    push_spaces(&mut out, 0);
    assert_eq!(out, "x   ");
}
