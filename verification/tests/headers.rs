use http_server::headers::Headers;

#[test]
fn empty_mapping_holds_nothing() {
    let headers = Headers::new();
    assert_eq!(headers.get(b""), None);
    assert_eq!(headers.get(b"Host"), None);
}

#[test]
fn insert_then_get() {
    let mut headers = Headers::new();
    headers.insert(b"Host".to_vec(), b"localhost".to_vec());
    headers.insert(b"Accept".to_vec(), b"*/*".to_vec());
    assert_eq!(headers.get(b"Host"), Some(&b"localhost".to_vec()));
    assert_eq!(headers.get(b"Accept"), Some(&b"*/*".to_vec()));
    assert_eq!(headers.get(b"host"), None);
    assert_eq!(headers.get(b"Hos"), None);
    assert_eq!(headers.get(b"Hostt"), None);
}

#[test]
fn insert_overwrites_and_leaves_the_others() {
    let mut headers = Headers::new();
    headers.insert(b"A".to_vec(), b"1".to_vec());
    headers.insert(b"B".to_vec(), b"2".to_vec());
    headers.insert(b"C".to_vec(), b"3".to_vec());
    headers.insert(b"B".to_vec(), b"two".to_vec());
    headers.insert(b"A".to_vec(), b"".to_vec());
    assert_eq!(headers.get(b"A"), Some(&b"".to_vec()));
    assert_eq!(headers.get(b"B"), Some(&b"two".to_vec()));
    assert_eq!(headers.get(b"C"), Some(&b"3".to_vec()));
}
