use http_server::config::parse_directory;

fn args(list: &[&str]) -> Vec<String> {
    list.iter().map(|s| s.to_string()).collect()
}

#[test]
fn directory_flag_with_its_path() {
    assert_eq!(
        parse_directory(&args(&["server", "--directory", "/tmp/data"])),
        Some("/tmp/data".to_string())
    );
    assert_eq!(
        parse_directory(&args(&["", "--directory", ""])),
        Some("".to_string())
    );
}

#[test]
fn every_other_shape_configures_nothing() {
    assert_eq!(parse_directory(&args(&[])), None);
    assert_eq!(parse_directory(&args(&["server"])), None);
    assert_eq!(parse_directory(&args(&["server", "--directory"])), None);
    assert_eq!(
        parse_directory(&args(&["server", "/tmp/data", "--directory"])),
        None
    );
    assert_eq!(
        parse_directory(&args(&["server", "--dir", "/tmp/data"])),
        None
    );
    assert_eq!(
        parse_directory(&args(&["server", "--Directory", "/tmp/data"])),
        None
    );
    assert_eq!(
        parse_directory(&args(&["server", "--directory", "/tmp/data", "more"])),
        None
    );
    assert_eq!(
        parse_directory(&args(&["server", "-v", "--directory", "/tmp/data"])),
        None
    );
}
