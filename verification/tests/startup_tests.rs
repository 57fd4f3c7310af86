use jviewson::startup::file_url_path;

#[test]
fn file_url_gives_its_path() {
    assert_eq!(file_url_path("file:///home/a%20b.json", false), Some("/home/a b.json".to_string()));
    assert_eq!(file_url_path("file:///C:/x%20y%20z.json", true), Some("C:/x y z.json".to_string()));
    assert_eq!(file_url_path("file://", false), Some(String::new()));
}

#[test]
fn other_arguments_are_not_file_urls() {
    assert_eq!(file_url_path("/tmp/x.json", false), None);
    assert_eq!(file_url_path("FILE:///x", false), None);
    assert_eq!(file_url_path("file:/x", true), None);
}

#[test]
fn percent_twenty_is_read_left_to_right() {
    assert_eq!(file_url_path("file://a%2020", false), Some("a 20".to_string()));
    assert_eq!(file_url_path("file://%%200", false), Some("% 0".to_string()));
}
