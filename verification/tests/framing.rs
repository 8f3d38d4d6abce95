use pyth_benchmark_rs::framing::{classify_unparsed_line, nonempty_trimmed_lines, stream_lines, LineFramer, UnparsedLine};

#[test]
fn test_process_stream_line_empty() {
    // An empty JSON object is a keep-alive, not an error.
    assert!(matches!(classify_unparsed_line("{}"), UnparsedLine::KeepAlive));
}

#[test]
fn a_chunk_becomes_trimmed_nonempty_lines() {
    let chunk = b"  {\"id\":\"BTC\",\"p\":1.5,\"t\":10}  \r\n\n   \n42\n";
    let lines = stream_lines(chunk);
    assert_eq!(lines, vec!["{\"id\":\"BTC\",\"p\":1.5,\"t\":10}".to_string(), "42".to_string()]);
}

#[test]
fn a_chunk_without_line_ending_is_one_line() {
    assert_eq!(stream_lines(b"data: 7"), vec!["data: 7".to_string()]);
    assert!(stream_lines(b"").is_empty());
    assert!(stream_lines(b" \t\r\n").is_empty());
}

#[test]
fn invalid_utf8_is_replaced_not_dropped() {
    let lines = stream_lines(b"ab\xffcd\n");
    assert_eq!(lines, vec!["ab\u{fffd}cd".to_string()]);
}

#[test]
fn trimming_keeps_inner_spaces() {
    let lines = nonempty_trimmed_lines(&vec!["  a b  ", "", "   ", "c"]);
    assert_eq!(lines, vec!["a b".to_string(), "c".to_string()]);
}

#[test]
fn event_lines_carry_their_data() {
    match classify_unparsed_line("data: {\"id\":\"x\"}") {
        UnparsedLine::EventData(data) => assert_eq!(data, "{\"id\":\"x\"}"),
        other => panic!("unexpected {:?}", other),
    }
    assert!(matches!(classify_unparsed_line("data: "), UnparsedLine::EmptyEvent));
}

#[test]
fn other_lines_are_malformed() {
    assert!(matches!(classify_unparsed_line("data:x"), UnparsedLine::Malformed));
    assert!(matches!(classify_unparsed_line("{"), UnparsedLine::Malformed));
    assert!(matches!(classify_unparsed_line("dat"), UnparsedLine::Malformed));
    assert!(matches!(classify_unparsed_line("event: ping"), UnparsedLine::Malformed));
}

#[test]
fn unicode_white_space_is_trimmed() {
    let lines = nonempty_trimmed_lines(&vec!["\u{3000}x y\u{a0}\u{2028}", "\u{85}\u{1680}", "\u{200b}z"]);
    assert_eq!(lines, vec!["x y".to_string(), "\u{200b}z".to_string()]);
}

#[test]
fn a_line_split_across_chunks_is_put_together() {
    let line = "{\"id\":\"Crypto.BTC/USD\",\"p\":67000.5,\"t\":1717000000}";
    let mut framer = LineFramer::new();
    assert!(framer.push_chunk(line[..10].as_bytes()).is_empty());
    assert!(framer.push_chunk(line[10..30].as_bytes()).is_empty());
    let mut rest = line[30..].as_bytes().to_vec();
    rest.extend_from_slice(b"\n42\n{\"id\"");
    assert_eq!(framer.push_chunk(&rest), vec![line.to_string(), "42".to_string()]);
    assert!(framer.push_chunk(b":1}").is_empty());
    assert_eq!(framer.finish(), vec!["{\"id\":1}".to_string()]);
    assert!(framer.finish().is_empty());
}

#[test]
fn a_character_split_across_chunks_is_put_together() {
    let mut framer = LineFramer::new();
    let euro = "\u{20ac}".as_bytes();
    assert!(framer.push_chunk(&euro[..1]).is_empty());
    let mut rest = euro[1..].to_vec();
    rest.push(b'\n');
    assert_eq!(framer.push_chunk(&rest), vec!["\u{20ac}".to_string()]);
}

#[test]
fn crlf_split_between_chunks_is_one_line_ending() {
    let mut framer = LineFramer::new();
    assert!(framer.push_chunk(b"data: 1\r").is_empty());
    assert_eq!(framer.push_chunk(b"\n"), vec!["data: 1".to_string()]);
}
