use twitch_tracker::stream_names::{parse_stream_names, StreamNameEntry};

fn entry(id: u64, title: &str) -> StreamNameEntry {
    StreamNameEntry { twitch_stream_id: id, title: title.as_bytes().to_vec() }
}

#[test]
fn parses_id_and_name_lines() {
    let text = "123\tFirst stream\n456\tSecond\tpart\r\nbad\tline\n\n+7\n99999999999999999999\tover\n";
    assert_eq!(
        parse_stream_names(text.as_bytes()),
        vec![entry(123, "First stream"), entry(456, "Second\tpart"), entry(7, "")]
    );
}

#[test]
fn last_line_needs_no_newline() {
    assert_eq!(parse_stream_names("5\tx".as_bytes()), vec![entry(5, "x")]);
    assert_eq!(parse_stream_names("8\tname\r".as_bytes()), vec![entry(8, "name\r")]);
    assert_eq!(parse_stream_names("".as_bytes()), vec![]);
    assert_eq!(parse_stream_names("\n\n".as_bytes()), vec![]);
}

#[test]
fn rejects_ids_that_are_not_numbers() {
    let text = "+\ta\n-1\tb\n1 \tc\n18446744073709551615\tmax\n18446744073709551616\tover\n";
    assert_eq!(parse_stream_names(text.as_bytes()), vec![entry(u64::MAX, "max")]);
}

#[test]
fn keeps_utf8_names() {
    let text = "42\tÜberstream 🎉\n";
    let parsed = parse_stream_names(text.as_bytes());
    assert_eq!(String::from_utf8(parsed[0].title.clone()).unwrap(), "Überstream 🎉");
}
