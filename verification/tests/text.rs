use librarybridge::path::FilePath;
use librarybridge::sort::{arranged, order, Index};
use librarybridge::text::{
    after_prefix, before_suffix, contains, decimal, join, lines, octal, parse_number, same_ignoring_case, sort_texts,
    split_at_char, trim, words,
};

fn path(text: &str) -> FilePath {
    FilePath::new(text)
}

fn list(items: &[&str]) -> Vec<String> {
    items.iter().map(|text| text.to_string()).collect()
}

#[test]
fn pieces_of_text() {
    for text in ["", ",", "a,b", ",a,,b,", "日,本"] {
        let pieces: Vec<&str> = text.split(',').collect();
        assert_eq!(split_at_char(text, ','), pieces);
    }
    for text in ["", "a", "a\n", "a\r\nb", "\n\n", "a\rb\n", "\r\n", "a\r"] {
        let wanted: Vec<&str> = text.lines().collect();
        assert_eq!(lines(text), wanted, "{text:?}");
    }
    for text in ["", "  a\tb \u{a0} c\u{2003}d\n", "x", " \u{85} "] {
        let wanted: Vec<&str> = text.split_whitespace().collect();
        assert_eq!(words(text), wanted, "{text:?}");
        assert_eq!(trim(text), text.trim(), "{text:?}");
    }
    assert_eq!(after_prefix("abc", "ab").as_deref(), Some("c"));
    assert_eq!(before_suffix("abc", "bc").as_deref(), Some("a"));
    assert_eq!(after_prefix("abc", "b"), None);
    assert!(contains("abcab", "cab") && !contains("abc", "ca") && contains("", ""));
    assert_eq!(join(&list(&["a", "b", "c"]), ", "), "a, b, c");
    assert!(same_ignoring_case("AbC", "aBc") && !same_ignoring_case("É", "é"));
}

#[test]
fn numbers_as_text() {
    for n in [0, 9, 10, 4_294_967_296, u64::MAX] {
        assert_eq!(decimal(n), n.to_string());
        assert_eq!(parse_number(&decimal(n), u64::MAX), Some(n));
    }
    assert_eq!(octal(0o7755), "7755");
    assert_eq!(octal(0), "0");
    for text in ["", "+", "-1", "1 ", "18446744073709551616", "+7", "007"] {
        assert_eq!(parse_number(text, u64::MAX), text.parse::<u64>().ok(), "{text:?}");
    }
    assert_eq!(parse_number("256", 255), None);
}

#[test]
fn order_of_texts_and_keys() {
    let mut wanted = vec!["b", "a", "é", "Z", "aa", ""];
    let sorted = sort_texts(&list(&wanted));
    wanted.sort();
    assert_eq!(sorted, wanted);
    let keys = vec![vec![3], vec![1, 2], vec![3], vec![1]];
    assert_eq!(order(&keys), [3, 1, 0, 2]);
    assert_eq!(arranged(&keys), [vec![1], vec![1, 2], vec![3], vec![3]]);
    let index = Index::new(keys);
    assert_eq!(index.find_first(&vec![3]), Some(0));
    assert_eq!(index.find_last(&vec![3]), Some(2));
    assert_eq!(index.find_first(&vec![9]), None);
}

#[test]
fn paths_are_taken_apart_and_joined() {
    assert_eq!(path("/a").join(&path("b/c")), path("/a/b/c"));
    assert_eq!(path("/a/").join(&path("b")), path("/a/b"));
    assert_eq!(path("/a").join(&path("/b")), path("/b"));
    assert_eq!(path("").join(&path("b")), path("b"));
    assert_eq!(path("/a/b").parent(), Some(path("/a")));
    assert_eq!(path("/").parent(), None);
    assert_eq!(path("a").parent(), Some(path("")));
    assert_eq!(path("/a/b/").file_name_text().as_deref(), Some("b"));
    assert_eq!(path("/a/..").file_name(), None);
    assert!(path("/a/b").starts_with(&path("/a")) && !path("/ab").starts_with(&path("/a")));
    assert!(path("/a//b/.").same_as(&path("/a/b")));
    assert!(!path("a").is_absolute());
    let above: Vec<String> = path("/a/b").ancestors().iter().map(|p| p.display()).collect();
    assert_eq!(above, ["/a/b", "/a", "/"]);
    assert_eq!(FilePath::from_bytes(&[b'a', 0xff]).display(), "a\u{fffd}");
}

#[test]
fn paths_agree_with_std() {
    let samples = ["", "/", "a", "/a", "a/b", "/a/b/", "//a", "./a", "a/./b", "../a", "a/..", "/..", "a//b", "."];
    for one in samples {
        let std_path = std::path::Path::new(one);
        assert_eq!(
            path(one).parent().map(|p| p.display()),
            std_path.parent().map(|p| p.display().to_string()),
            "parent of {one:?}"
        );
        assert_eq!(
            path(one).file_name_text(),
            std_path.file_name().map(|n| n.to_string_lossy().to_string()),
            "name of {one:?}"
        );
        for two in samples {
            let other = std::path::Path::new(two);
            assert_eq!(path(one).same_as(&path(two)), std_path == other, "{one:?} {two:?}");
            assert_eq!(path(one).starts_with(&path(two)), std_path.starts_with(other), "{one:?} {two:?}");
            assert_eq!(
                path(one).join(&path(two)).display(),
                std_path.join(other).display().to_string(),
                "{one:?} {two:?}"
            );
        }
    }
}
