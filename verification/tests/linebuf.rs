use stylus::linebuf::LineBuf;

fn test(s: &str, expected: Vec<&str>) {
    let mut lines = Vec::new();
    let mut buf = LineBuf::new(40);
    for line in buf.accept(s.as_bytes()) {
        lines.push(line);
    }
    for line in buf.close() {
        lines.push(line);
    }
    assert_eq!(lines, expected);
}

#[test]
fn test_short_lines() {
    test(
        "hello world\nbye world\n",
        vec!["hello world\n", "bye world\n"],
    );
}

#[test]
fn test_long_lines() {
    test(
        "01234567890123456789012345678901234567890123456789012345678901234567890123456789",
        vec![
            "0123456789012345678901234567890123456789",
            "0123456789012345678901234567890123456789",
        ],
    );
    test(
        "012345678901234567890123456789012345678901234567890123456789012345678901234567890",
        vec![
            "0123456789012345678901234567890123456789",
            "0123456789012345678901234567890123456789",
            "0",
        ],
    );
    test(
        "0123456789012345678901234567890123456789\n0123456789012345678901234567890123456789",
        vec![
            "0123456789012345678901234567890123456789\n",
            "0123456789012345678901234567890123456789",
        ],
    );
    test(
        "0123456789012345678901234567890123456789\n0123456789012345678901234567890123456789\n",
        vec![
            "0123456789012345678901234567890123456789\n",
            "0123456789012345678901234567890123456789\n",
        ],
    );
    test(
        "01234567890123456789012345678901234567890123456789012345678901234567890123456789\n",
        vec![
            "0123456789012345678901234567890123456789",
            "0123456789012345678901234567890123456789\n",
        ],
    );
}

#[test]
fn test_empty() {
    test("", vec![]);
}

#[test]
fn test_no_lf() {
    test("hello world", vec!["hello world"]);
}

#[test]
fn test_cr_lf() {
    test("hello world\r\n", vec!["hello world\n"]);
    test("hello world\r\nbye world", vec!["hello world\n", "bye world"]);
    test(
        "hello world\r\nbye world\r\n",
        vec!["hello world\n", "bye world\n"],
    );
}

#[test]
fn test_cr() {
    test("test1\rtest2\rtest3\n", vec!["test3\n"]);
    test("test1\rtest2\rtest3", vec!["test3"]);
    test("test1\rtest2\rtest3\r", vec![]);
}

#[test]
fn test_cap_boundary_exact() {
    // feeding exactly `cap` bytes with no line feed emits one record of
    // exactly `cap` bytes
    let mut buf = LineBuf::new(8);
    let mut lines = buf.accept(b"abcdefgh");
    assert_eq!(lines.len(), 0);
    lines.extend(buf.close());
    assert_eq!(lines, vec!["abcdefgh"]);
}

#[test]
fn test_chunking_independence_example() {
    // the same stream, fed whole and fed byte by byte, emits the same lines
    let input = "alpha\r\nbeta\rgamma\ndelta";
    let mut whole = LineBuf::new(16);
    let mut a = whole.accept(input.as_bytes());
    a.extend(whole.close());

    let mut pieces = LineBuf::new(16);
    let mut b = Vec::new();
    for byte in input.as_bytes() {
        b.extend(pieces.accept(std::slice::from_ref(byte)));
    }
    b.extend(pieces.close());
    assert_eq!(a, b);
}
