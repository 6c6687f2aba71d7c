use std::path::{Component, Path};

use sift::paths::{components_of, strip_prefix_chars};

fn chars(s: &str) -> Vec<char> {
    s.chars().collect()
}

fn strip(path: &str, base: &str) -> Option<String> {
    strip_prefix_chars(&chars(path), &chars(base)).map(|v| v.into_iter().collect())
}

fn std_strip(path: &str, base: &str) -> Option<String> {
    Path::new(path).strip_prefix(base).ok().map(|p| p.to_string_lossy().into_owned())
}

const CASES: [(&str, &str); 16] = [
    ("/root/src//a.rs/", "/root"),
    ("/root/src/./a.rs", "/root/"),
    ("/x/./y", "/x"),
    ("./a/b", "."),
    ("a/b", "./a"),
    ("./a/b", "a"),
    ("/a/", ""),
    ("./", ""),
    ("a/b/.", ""),
    ("//a", ""),
    ("/root", "/root"),
    ("/root/", "/root"),
    ("/root/a", "/other"),
    ("a//b//c/", "a"),
    ("../a/b", ".."),
    ("", ""),
];

#[test]
fn stripping_a_prefix_keeps_the_rest_as_written() {
    for (path, base) in CASES {
        assert_eq!(strip(path, base), std_strip(path, base), "{path} minus {base}");
    }
    assert_eq!(strip("/root/src//a.rs/", "/root"), Some("src//a.rs".to_string()));
    assert_eq!(strip("a/b", "./a"), None);
}

#[test]
fn components_keep_a_leading_current_directory() {
    for path in ["./a", ".", "a/./b", "/./a", "./", "a", "/", "../a", ""] {
        let ours: Vec<String> = components_of(&chars(path)).into_iter().map(|c| c.into_iter().collect()).collect();
        let std: Vec<String> = Path::new(path)
            .components()
            .map(|c| match c {
                Component::RootDir => "/".to_string(),
                other => other.as_os_str().to_string_lossy().into_owned(),
            })
            .collect();
        assert_eq!(ours, std, "components of {path}");
    }
}
