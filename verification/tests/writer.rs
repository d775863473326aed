use http_server::number::append_decimal;
use http_server::number::parse_unsigned;
use http_server::response::write_file;
use http_server::response::write_header;
use http_server::response::write_status;
use http_server::response::write_text;
use http_server::response::CONTENT_TYPE_FILE;
use http_server::response::CONTENT_TYPE_TEXT;

#[test]
fn status_without_body_is_status_line_and_blank_line() {
    assert_eq!(write_status(200, "OK"), b"HTTP/1.1 200 OK\r\n\r\n");
    assert_eq!(write_status(201, "Created"), b"HTTP/1.1 201 Created\r\n\r\n");
    assert_eq!(write_status(404, "Not Found"), b"HTTP/1.1 404 Not Found\r\n\r\n");
    assert_eq!(
        write_status(503, "Server Internal Error"),
        b"HTTP/1.1 503 Server Internal Error\r\n\r\n"
    );
    assert_eq!(write_status(0, ""), b"HTTP/1.1 0 \r\n\r\n");
    assert_eq!(
        write_status(u32::MAX, "x"),
        b"HTTP/1.1 4294967295 x\r\n\r\n"
    );
}

#[test]
fn header_declares_type_and_length() {
    let mut lines = Vec::new();
    write_header(&mut lines, CONTENT_TYPE_TEXT, 3);
    assert_eq!(
        lines,
        b"HTTP/1.1 200 OK\r\nContent-Type: text/plain\r\nContent-Length: 3\r\n\r\n"
    );

    let mut lines = b"kept".to_vec();
    write_header(&mut lines, CONTENT_TYPE_FILE, 1234567);
    assert_eq!(
        lines,
        b"keptHTTP/1.1 200 OK\r\nContent-Type: application/octet-stream\r\nContent-Length: 1234567\r\n\r\n"
    );
}

#[test]
fn text_body_is_followed_by_a_line_end_that_is_not_counted() {
    let mut lines = Vec::new();
    write_text(&mut lines, b"abc");
    assert_eq!(
        lines,
        b"HTTP/1.1 200 OK\r\nContent-Type: text/plain\r\nContent-Length: 3\r\n\r\nabc\r\n"
    );

    let mut lines = Vec::new();
    write_text(&mut lines, b"");
    assert_eq!(
        lines,
        b"HTTP/1.1 200 OK\r\nContent-Type: text/plain\r\nContent-Length: 0\r\n\r\n\r\n"
    );
}

#[test]
fn file_body_is_written_byte_for_byte() {
    let mut buffer = Vec::new();
    write_file(&mut buffer, b"hello");
    assert_eq!(
        buffer,
        b"HTTP/1.1 200 OK\r\nContent-Type: application/octet-stream\r\nContent-Length: 5\r\n\r\nhello"
    );

    let content: Vec<u8> = (0..=255).collect();
    let mut buffer = Vec::new();
    write_file(&mut buffer, &content);
    let head = b"HTTP/1.1 200 OK\r\nContent-Type: application/octet-stream\r\nContent-Length: 256\r\n\r\n";
    assert_eq!(&buffer[..head.len()], head);
    assert_eq!(&buffer[head.len()..], &content[..]);
}

#[test]
fn declared_length_is_the_number_of_body_bytes() {
    for len in [0usize, 1, 9, 10, 11, 99, 100, 101, 999, 1000, 4096] {
        let content = vec![b'x'; len];
        let mut buffer = Vec::new();
        write_file(&mut buffer, &content);
        let text = String::from_utf8(buffer).unwrap();
        let (head, body) = text.split_once("\r\n\r\n").unwrap();
        let declared = head.rsplit_once("Content-Length: ").unwrap().1;
        assert_eq!(declared, len.to_string());
        assert_eq!(body.len(), len);
    }
}

#[test]
fn decimal_is_written_as_std_writes_it() {
    for n in [
        0u64,
        1,
        9,
        10,
        11,
        99,
        100,
        101,
        200,
        404,
        12345,
        1_000_000,
        u32::MAX as u64,
        u64::MAX - 1,
        u64::MAX,
    ] {
        let mut out = b"n=".to_vec();
        append_decimal(&mut out, n);
        assert_eq!(out, format!("n={n}").as_bytes());
    }
}

#[test]
fn written_decimal_is_read_back() {
    for n in [0u64, 7, 10, 99, 1234567890, u64::MAX] {
        let mut out = Vec::new();
        append_decimal(&mut out, n);
        assert_eq!(parse_unsigned(&out), Some(n));
    }
}

#[test]
fn unsigned_number_exact_values() {
    assert_eq!(parse_unsigned(b"0"), Some(0));
    assert_eq!(parse_unsigned(b"5"), Some(5));
    assert_eq!(parse_unsigned(b"+5"), Some(5));
    assert_eq!(parse_unsigned(b"0042"), Some(42));
    assert_eq!(parse_unsigned(b"18446744073709551615"), Some(u64::MAX));
    assert_eq!(parse_unsigned(b"18446744073709551616"), None);
    assert_eq!(parse_unsigned(b"18446744073709551620"), None);
    assert_eq!(parse_unsigned(b"28446744073709551615"), None);
    assert_eq!(parse_unsigned(b""), None);
    assert_eq!(parse_unsigned(b"+"), None);
    assert_eq!(parse_unsigned(b"-"), None);
    assert_eq!(parse_unsigned(b"-5"), None);
    assert_eq!(parse_unsigned(b" 5"), None);
    assert_eq!(parse_unsigned(b"5 "), None);
    assert_eq!(parse_unsigned(b"5+"), None);
    assert_eq!(parse_unsigned(b"/"), None);
    assert_eq!(parse_unsigned(b":"), None);
}

#[test]
fn unsigned_number_is_read_as_std_reads_it() {
    let alphabet = [b'0', b'1', b'9', b'+', b'-', b' ', b'a'];
    let mut texts: Vec<Vec<u8>> = vec![Vec::new()];
    for _ in 0..4 {
        let mut longer = Vec::new();
        for t in &texts {
            for b in alphabet {
                let mut next = t.clone();
                next.push(b);
                longer.push(next);
            }
        }
        texts.extend(longer);
        texts.sort();
        texts.dedup();
    }
    for t in &texts {
        let expected = std::str::from_utf8(t).unwrap().parse::<u64>().ok();
        assert_eq!(parse_unsigned(t), expected, "{t:?}");
    }
}
