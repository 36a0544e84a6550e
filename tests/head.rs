use headr::bytes::ByteHead;
use headr::lines::LineHead;
use headr::report::{header, open_error_line};
use headr::{get_args, Cli, Limit, UsageError};

fn s(v: &[&str]) -> Vec<String> {
    v.iter().map(|x| x.to_string()).collect()
}

/// Feeds `content` to a line head in chunks of `size` bytes, as a reader
/// would, and returns what is written.
fn lines_through(content: &[u8], limit: usize, size: usize) -> Vec<u8> {
    let mut head = LineHead::new(limit);
    let mut out = Vec::new();
    let mut pos = 0;
    while !head.is_done() && pos < content.len() {
        let end = std::cmp::min(pos + size, content.len());
        let chunk = &content[pos..end];
        let k = head.feed(chunk);
        assert!(k <= chunk.len());
        out.extend_from_slice(&chunk[..k]);
        pos += k;
    }
    out
}

fn bytes_through(content: &[u8], limit: usize, size: usize) -> (usize, String) {
    let mut head = ByteHead::new(limit);
    let mut pos = 0;
    while !head.is_done() && pos < content.len() {
        let end = std::cmp::min(pos + size, content.len());
        pos += head.feed(&content[pos..end]);
    }
    (pos, head.text())
}

/// One run over inputs held in memory: `None` is an input that cannot be
/// opened. Returns what goes to standard output and to standard error.
fn run_on(cli: &Cli, inputs: &[Option<&[u8]>], size: usize) -> (String, String) {
    let mut out = String::new();
    let mut err = String::new();
    let count = cli.files.len();
    for (index, name) in cli.files.iter().enumerate() {
        match inputs[index] {
            None => err.push_str(&open_error_line(name, "No such file or directory (os error 2)")),
            Some(content) => {
                out.push_str(&header(name, index, count));
                match cli.limit() {
                    Limit::Bytes(m) => out.push_str(&bytes_through(content, m, size).1),
                    Limit::Lines(n) => {
                        out.push_str(&String::from_utf8_lossy(&lines_through(content, n, size)))
                    }
                }
            }
        }
    }
    (out, err)
}

#[test]
fn args_default_to_stdin_and_ten_lines() {
    let cli = get_args(vec![], None, None).unwrap();
    assert_eq!(cli.files, s(&["-"]));
    assert_eq!(cli.lines, 10);
    assert_eq!(cli.bytes, None);
    assert_eq!(cli.limit(), Limit::Lines(10));
}

#[test]
fn args_keep_given_values() {
    let cli = get_args(s(&["a.txt", "b.txt"]), Some(3), None).unwrap();
    assert_eq!(cli.files, s(&["a.txt", "b.txt"]));
    assert_eq!(cli.limit(), Limit::Lines(3));
    let cli = get_args(s(&["a.txt"]), None, Some(7)).unwrap();
    assert_eq!(cli.lines, 10);
    assert_eq!(cli.limit(), Limit::Bytes(7));
}

#[test]
fn args_refuse_lines_with_bytes() {
    let r = get_args(s(&["a.txt"]), Some(1), Some(1));
    assert_eq!(r.unwrap_err(), UsageError::LinesAndBytes);
    let r = get_args(vec![], Some(0), Some(0));
    assert_eq!(r.unwrap_err(), UsageError::LinesAndBytes);
}

#[test]
fn lines_keep_at_most_the_limit() {
    let content = b"one\ntwo\nthree\nfour\n";
    assert_eq!(lines_through(content, 2, 64), b"one\ntwo\n".to_vec());
    assert_eq!(lines_through(content, 4, 64), content.to_vec());
    assert_eq!(lines_through(content, 10, 64), content.to_vec());
}

#[test]
fn lines_same_for_every_chunk_size() {
    let content = b"a\n\nbc\r\nd\ne";
    for size in 1..12 {
        assert_eq!(lines_through(content, 3, size), b"a\n\nbc\r\n".to_vec());
        assert_eq!(lines_through(content, 5, size), content.to_vec());
    }
}

#[test]
fn lines_last_without_newline() {
    assert_eq!(lines_through(b"x\ny", 2, 64), b"x\ny".to_vec());
    assert_eq!(lines_through(b"x\ny", 1, 64), b"x\n".to_vec());
    assert_eq!(lines_through(b"", 3, 64), Vec::<u8>::new());
}

#[test]
fn line_feed_returns_cut() {
    let mut head = LineHead::new(2);
    assert!(!head.is_done());
    assert_eq!(head.feed(b"ab\ncd"), 5);
    assert!(!head.is_done());
    assert_eq!(head.feed(b"e\nfg\n"), 2);
    assert!(head.is_done());
    assert_eq!(head.feed(b"more\n"), 0);
}

#[test]
fn zero_lines_read_nothing() {
    let mut head = LineHead::new(0);
    assert!(head.is_done());
    assert_eq!(head.feed(b"abc\n"), 0);
}

#[test]
fn bytes_keep_at_most_the_limit() {
    assert_eq!(bytes_through(b"hello world", 5, 3), (5, "hello".to_string()));
    assert_eq!(bytes_through(b"hi", 5, 3), (2, "hi".to_string()));
    assert_eq!(bytes_through(b"hi", 0, 3), (0, String::new()));
    let mut head = ByteHead::new(4);
    assert_eq!(head.feed(b"ab"), 2);
    assert_eq!(head.feed(b"cdef"), 2);
    assert!(head.is_done());
    assert_eq!(head.feed(b"gh"), 0);
    assert_eq!(head.text(), "abcd");
}

#[test]
fn bytes_decode_invalid_as_replacement() {
    // "é" is two bytes; keeping only the first leaves an invalid sequence.
    let e = "é".as_bytes();
    assert_eq!(bytes_through(e, 1, 8), (1, "\u{FFFD}".to_string()));
    assert_eq!(bytes_through(e, 2, 1), (2, "é".to_string()));
    assert_eq!(bytes_through(&[0x61, 0xFF, 0x62], 3, 8), (3, "a\u{FFFD}b".to_string()));
}

#[test]
fn header_only_for_several_inputs() {
    assert_eq!(header("a.txt", 0, 1), "");
    assert_eq!(header("a.txt", 0, 2), "==> a.txt <==\n");
    assert_eq!(header("b.txt", 1, 2), "\n==> b.txt <==\n");
}

#[test]
fn open_error_names_input_and_cause() {
    assert_eq!(
        open_error_line("missing.txt", "No such file or directory (os error 2)"),
        "missing.txt: No such file or directory (os error 2)\n"
    );
}

#[test]
fn missing_first_input_then_three_lines() {
    let cli = get_args(s(&["missing.txt", "three.txt"]), None, None).unwrap();
    let three: &[u8] = b"1\n2\n3\n";
    let (out, err) = run_on(&cli, &[None, Some(three)], 4);
    assert_eq!(err, "missing.txt: No such file or directory (os error 2)\n");
    assert_eq!(err.lines().count(), 1);
    assert_eq!(out, "\n==> three.txt <==\n1\n2\n3\n");
}

#[test]
fn three_inputs_three_headers() {
    let cli = get_args(s(&["a", "b", "c"]), Some(1), None).unwrap();
    let (a, b, c): (&[u8], &[u8], &[u8]) = (b"a1\na2\n", b"b1\n", b"");
    let (out, err) = run_on(&cli, &[Some(a), Some(b), Some(c)], 2);
    assert_eq!(err, "");
    assert_eq!(out, "==> a <==\na1\n\n==> b <==\nb1\n\n==> c <==\n");
}

#[test]
fn single_input_zero_lines_prints_nothing() {
    let cli = get_args(s(&["one.txt"]), Some(0), None).unwrap();
    let content: &[u8] = b"x\ny\n";
    let (out, err) = run_on(&cli, &[Some(content)], 8);
    assert_eq!(out, "");
    assert_eq!(err, "");
}

#[test]
fn two_runs_agree() {
    let content: &[u8] = b"l1\nl2\nl3\n\xF0\x9F\x98";
    for (lines, bytes) in [(None, Some(10)), (Some(2), None), (None, None)] {
        let cli = get_args(s(&["f", "g"]), lines, bytes).unwrap();
        let first = run_on(&cli, &[Some(content), Some(content)], 1);
        let second = run_on(&cli, &[Some(content), Some(content)], 5);
        assert_eq!(first, second);
    }
}
