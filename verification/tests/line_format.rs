use tectonic::op_line::{
    BenchmarkerType, Command, ParseError, encode_command, join_tokens, parse_count, parse_line,
    push_decimal, split_tokens, strip_line_ending,
};

fn b(s: &str) -> Vec<u8> {
    s.as_bytes().to_vec()
}

fn roundtrip(c: Command) {
    let mut line = encode_command(&c);
    strip_line_ending(&mut line);
    assert_eq!(parse_line(&line), Ok(Some(c)));
}

#[test]
fn encode_writes_each_operation() {
    let c = Command::Insert { key: b("k1"), value: b("v1") };
    assert_eq!(encode_command(&c), b("I k1 v1\n"));
    let c = Command::Update { key: b("k"), value: b("v") };
    assert_eq!(encode_command(&c), b("U k v\n"));
    let c = Command::Merge { key: b("k"), value: b("v") };
    assert_eq!(encode_command(&c), b("M k v\n"));
    let c = Command::PointDelete { key: b("k") };
    assert_eq!(encode_command(&c), b("D k\n"));
    let c = Command::PointQuery { key: b("k") };
    assert_eq!(encode_command(&c), b("P k\n"));
    let c = Command::RangeQuery { start_key: b("a"), end_key: b("z") };
    assert_eq!(encode_command(&c), b("S a z\n"));
    let c = Command::RangeQueryCount { start_key: b("a"), count: 120 };
    assert_eq!(encode_command(&c), b("SC a 120\n"));
    let c = Command::RangeDelete { start_key: b("a"), end_key: b("z") };
    assert_eq!(encode_command(&c), b("R a z\n"));
    let c = Command::RangeDeleteCount { start_key: b("a"), count: 0 };
    assert_eq!(encode_command(&c), b("RC a 0\n"));
    let c = Command::StartStatFlush { benchmarker: BenchmarkerType::Group };
    assert_eq!(encode_command(&c), b("FS G\n"));
    let c = Command::EndStatFlush { benchmarker: BenchmarkerType::Section, name: b("Section 1") };
    assert_eq!(encode_command(&c), b("FE S Section 1\n"));
}

#[test]
fn parse_reads_each_operation() {
    assert_eq!(
        parse_line(&b("I key value")),
        Ok(Some(Command::Insert { key: b("key"), value: b("value") }))
    );
    assert_eq!(parse_line(&b("P key")), Ok(Some(Command::PointQuery { key: b("key") })));
    assert_eq!(parse_line(&b("D  key  ")), Ok(Some(Command::PointDelete { key: b("key") })));
    assert_eq!(
        parse_line(&b("SC a +17")),
        Ok(Some(Command::RangeQueryCount { start_key: b("a"), count: 17 }))
    );
    assert_eq!(
        parse_line(&b("RC a 3")),
        Ok(Some(Command::RangeDeleteCount { start_key: b("a"), count: 3 }))
    );
    assert_eq!(
        parse_line(&b("FS O")),
        Ok(Some(Command::StartStatFlush { benchmarker: BenchmarkerType::Overall }))
    );
    assert_eq!(
        parse_line(&b("FE G my   group name")),
        Ok(Some(Command::EndStatFlush { benchmarker: BenchmarkerType::Group, name: b("my group name") }))
    );
    assert_eq!(parse_line(&b("")), Ok(None));
    assert_eq!(parse_line(&b("   ")), Ok(None));
    // Words after the ones an operation needs are ignored.
    assert_eq!(parse_line(&b("P key extra")), Ok(Some(Command::PointQuery { key: b("key") })));
}

#[test]
fn parse_errors() {
    assert_eq!(parse_line(&b("I key")), Err(ParseError::MissingArgument));
    assert_eq!(parse_line(&b("FE S")), Err(ParseError::MissingArgument));
    assert_eq!(parse_line(&b("X key")), Err(ParseError::UnknownOperation));
    assert_eq!(parse_line(&b("II key value")), Err(ParseError::UnknownOperation));
    assert_eq!(parse_line(&b("FS Q")), Err(ParseError::UnknownBenchmarkerType));
    assert_eq!(parse_line(&[0xff, b' ', b'k']), Err(ParseError::InvalidUtf8));
    assert_eq!(parse_line(&[b'S', b'C', b' ', b'k', b' ', 0xc3]), Err(ParseError::InvalidUtf8));
    assert_eq!(parse_line(&b("SC k abc")), Err(ParseError::InvalidCount));
    assert_eq!(parse_line(&b("SC k -1")), Err(ParseError::InvalidCount));
    assert_eq!(parse_line(&b("RC k 99999999999999999999999")), Err(ParseError::InvalidCount));
}

#[test]
fn parse_count_values() {
    assert_eq!(parse_count(b"0"), Ok(0));
    assert_eq!(parse_count(b"+5"), Ok(5));
    assert_eq!(parse_count(b"18446744073709551615"), Ok(18446744073709551615usize));
    assert_eq!(parse_count(b"18446744073709551616"), Err(ParseError::InvalidCount));
    assert_eq!(parse_count(b"+"), Err(ParseError::InvalidCount));
    assert_eq!(parse_count(b""), Err(ParseError::InvalidCount));
    assert_eq!(parse_count(b"1 2"), Err(ParseError::InvalidCount));
}

#[test]
fn written_lines_read_back() {
    roundtrip(Command::Insert { key: b("user42"), value: b("xyz") });
    roundtrip(Command::Update { key: b("a"), value: b("b") });
    roundtrip(Command::Merge { key: b("a"), value: b("b") });
    roundtrip(Command::PointDelete { key: b("a") });
    roundtrip(Command::PointQuery { key: b("a") });
    roundtrip(Command::RangeQuery { start_key: b("a"), end_key: b("b") });
    roundtrip(Command::RangeQueryCount { start_key: b("a"), count: 987654321 });
    roundtrip(Command::RangeDelete { start_key: b("a"), end_key: b("b") });
    roundtrip(Command::RangeDeleteCount { start_key: b("a"), count: 1 });
    roundtrip(Command::StartStatFlush { benchmarker: BenchmarkerType::Section });
    roundtrip(Command::EndStatFlush { benchmarker: BenchmarkerType::Group, name: b("Section 0 Group 3") });
}

#[test]
fn strip_line_ending_removes_newline_and_carriage_return() {
    let mut v = b("I a b\r\n");
    strip_line_ending(&mut v);
    assert_eq!(v, b("I a b"));
    let mut v = b("I a b\n");
    strip_line_ending(&mut v);
    assert_eq!(v, b("I a b"));
    let mut v = b("I a b");
    strip_line_ending(&mut v);
    assert_eq!(v, b("I a b"));
    let mut v = b("\r\n");
    strip_line_ending(&mut v);
    assert_eq!(v, b(""));
}

#[test]
fn tokens_split_and_join() {
    let t = split_tokens(b"  a bb   c ");
    assert_eq!(t, vec![b("a"), b("bb"), b("c")]);
    assert_eq!(join_tokens(&t), b("a bb c"));
    assert_eq!(split_tokens(b""), Vec::<Vec<u8>>::new());
}

#[test]
fn decimal_digits() {
    let mut out = b("n=");
    push_decimal(&mut out, 0);
    assert_eq!(out, b("n=0"));
    let mut out = Vec::new();
    push_decimal(&mut out, 1234567890);
    assert_eq!(out, b("1234567890"));
}

#[test]
fn carriage_return_inside_words_reads_back() {
    roundtrip(Command::Insert { key: b("k\rx"), value: b("a\rb") });
    roundtrip(Command::PointQuery { key: b("\rk") });
    roundtrip(Command::RangeQuery { start_key: b("a\r"), end_key: b("z") });
    // A `\r` that ends the line is read as part of the line ending.
    let mut line = encode_command(&Command::PointDelete { key: b("k\r") });
    strip_line_ending(&mut line);
    assert_eq!(parse_line(&line), Ok(Some(Command::PointDelete { key: b("k") })));
}
