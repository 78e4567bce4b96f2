use talka::text::{concat_strings, join_path, split_words};
use talka::transcriber::finish_transcript;

#[test]
fn join_relative_component() {
    assert_eq!(join_path("/data/app", "models"), "/data/app/models");
    assert_eq!(join_path("/data/app/", "models"), "/data/app/models");
    assert_eq!(join_path("", "models"), "models");
    assert_eq!(join_path(".", "models"), "./models");
}

#[test]
fn join_absolute_component_replaces() {
    assert_eq!(join_path("/data/app", "/etc/x.bin"), "/etc/x.bin");
}

#[test]
fn join_matches_std_on_unix() {
    for (base, part) in [("/a/b", "c"), ("/a/b/", "c.bin"), ("", "x"), ("rel", "y/z"), ("/a", "/b")] {
        let expected = std::path::Path::new(base).join(part).to_string_lossy().into_owned();
        assert_eq!(join_path(base, part), expected);
    }
}

#[test]
fn trim_removes_unicode_whitespace() {
    let one = |s: &str| finish_transcript(&vec![s.to_string()]);
    assert_eq!(one("  hello world \n"), "hello world");
    assert_eq!(one("\u{3000}\u{a0}text\u{2028}"), "text");
    assert_eq!(one("   "), "");
    assert_eq!(one(""), "");
}

#[test]
fn split_words_on_whitespace_runs() {
    assert_eq!(split_words("  one two\tthree\n\nfour "), vec!["one", "two", "three", "four"]);
    assert!(split_words(" \t ").is_empty());
    assert_eq!(split_words("a\u{3000}b"), vec!["a", "b"]);
}

#[test]
fn concat_in_order() {
    let parts = vec![" Hello".to_string(), " world".to_string(), "!".to_string()];
    assert_eq!(concat_strings(&parts), " Hello world!");
    assert_eq!(concat_strings(&Vec::new()), "");
}
