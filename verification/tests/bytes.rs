use http_server::bytes::append_bytes;
use http_server::bytes::byte_is_space;
use http_server::bytes::bytes_eq;
use http_server::bytes::find_byte;
use http_server::bytes::find_pair;
use http_server::bytes::starts_with;
use http_server::bytes::trim;

#[test]
fn equal_bytes() {
    assert!(bytes_eq(b"", b""));
    assert!(bytes_eq(b"abc", b"abc"));
    assert!(!bytes_eq(b"abc", b"abd"));
    assert!(!bytes_eq(b"abc", b"ab"));
    assert!(!bytes_eq(b"ab", b"abc"));
    assert!(!bytes_eq(b"", b"a"));
}

#[test]
fn prefix_of_bytes() {
    assert!(starts_with(b"/echo/abc", b"/echo/"));
    assert!(starts_with(b"/echo/", b"/echo/"));
    assert!(starts_with(b"abc", b""));
    assert!(starts_with(b"", b""));
    assert!(!starts_with(b"/echo", b"/echo/"));
    assert!(!starts_with(b"x/echo/", b"/echo/"));
    assert!(!starts_with(b"", b"a"));
}

#[test]
fn first_byte_found() {
    assert_eq!(find_byte(b"", b' '), 0);
    assert_eq!(find_byte(b"abc", b' '), 3);
    assert_eq!(find_byte(b" abc", b' '), 0);
    assert_eq!(find_byte(b"a b c", b' '), 1);
    assert_eq!(find_byte(b"abc ", b' '), 3);
}

#[test]
fn first_pair_found() {
    assert_eq!(find_pair(b"", b':', b' '), 0);
    assert_eq!(find_pair(b":", b':', b' '), 1);
    assert_eq!(find_pair(b" :", b':', b' '), 2);
    assert_eq!(find_pair(b": ", b':', b' '), 0);
    assert_eq!(find_pair(b"a:b: c: d", b':', b' '), 3);
    assert_eq!(find_pair(b"a:b:c", b':', b' '), 5);
    assert_eq!(find_pair(b"aa", b'a', b'a'), 0);
    assert_eq!(find_pair(b"baa", b'a', b'a'), 1);
}

#[test]
fn white_space_is_what_std_takes_for_it() {
    for b in 0u8..=127 {
        assert_eq!(byte_is_space(b), (b as char).is_whitespace(), "{b}");
    }
    for b in 128u8..=255 {
        assert!(!byte_is_space(b), "{b}");
    }
}

#[test]
fn trimming_is_what_std_does_to_ascii_text() {
    let alphabet = [b'a', b' ', b'\t', b'\r', b'\n', b':', 0x0b, 0x0c];
    let mut texts: Vec<Vec<u8>> = vec![Vec::new()];
    for _ in 0..5 {
        let mut longer = Vec::new();
        for t in &texts {
            for b in alphabet {
                let mut next = t.clone();
                next.push(b);
                longer.push(next);
            }
        }
        texts = longer.into_iter().chain(texts).collect();
        texts.sort();
        texts.dedup();
    }
    assert!(texts.len() > 30000);
    for t in &texts {
        let expected = std::str::from_utf8(t).unwrap().trim();
        assert_eq!(trim(t), expected.as_bytes(), "{t:?}");
    }
}

#[test]
fn appended_bytes_follow_what_was_there() {
    let mut dst = b"ab".to_vec();
    append_bytes(&mut dst, b"cd");
    append_bytes(&mut dst, b"");
    append_bytes(&mut dst, b"e");
    assert_eq!(dst, b"abcde");
}
