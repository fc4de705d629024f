use librarybridge::path::FilePath;
use librarybridge::vdf::{check_size, parse, parse_file};

#[test]
fn parses_a_modern_libraryfolders_file() {
    let text = r#"
"libraryfolders"
{
	"0"
	{
		"path"		"/home/alice/.local/share/Steam"
		"label"		""
		"apps"
		{
			"228980"		"320737"
		}
	}
	"1"
	{
		"path"		"/run/media/alice/Games/SteamLibrary"
		"label"		"Games"
	}
}
"#;
    let root = parse(text).unwrap();
    let folders = root.get("libraryfolders").unwrap();
    assert_eq!(folders.entries().len(), 2);
    assert_eq!(
        folders.get("1").unwrap().get("path").unwrap().as_str(),
        Some("/run/media/alice/Games/SteamLibrary")
    );
}

#[test]
fn parses_the_legacy_flat_layout() {
    let text = r#"
"LibraryFolders"
{
	"TimeNextStatsReport"		"1234567890"
	"ContentStatsID"		"-1234"
	"1"		"/run/media/alice/Games/SteamLibrary"
}
"#;
    let root = parse(text).unwrap();
    let folders = root.get("libraryfolders").unwrap();
    assert_eq!(
        folders.get("1").unwrap().as_str(),
        Some("/run/media/alice/Games/SteamLibrary")
    );
}

#[test]
fn keys_are_case_insensitive() {
    let root = parse(r#""Root" { "PaTh" "/x" }"#).unwrap();
    assert_eq!(
        root.get("root").unwrap().get("path").unwrap().as_str(),
        Some("/x")
    );
}

#[test]
fn keeps_duplicate_keys_in_order() {
    let root = parse(r#""r" { "k" "1" "k" "2" }"#).unwrap();
    let entries = root.get("r").unwrap().entries();
    assert_eq!(entries.len(), 2);
    assert_eq!(entries[1].1.as_str(), Some("2"));
}

#[test]
fn handles_escapes_and_comments() {
    let text = "\"r\"\n{\n\t// a comment\n\t\"p\" \"/a\\\\b\\\"c\"\n}\n";
    let root = parse(text).unwrap();
    assert_eq!(
        root.get("r").unwrap().get("p").unwrap().as_str(),
        Some("/a\\b\"c")
    );
}

#[test]
fn handles_non_ascii_paths() {
    let root = parse("\"r\" { \"path\" \"/mnt/Spiele-Bibliothèque/日本\" }").unwrap();
    assert_eq!(
        root.get("r").unwrap().get("path").unwrap().as_str(),
        Some("/mnt/Spiele-Bibliothèque/日本")
    );
}

#[test]
fn rejects_truncated_and_unbalanced_input() {
    assert!(parse("\"r\" { \"p\" \"/a\"").is_err());
    assert!(parse("\"r\" { \"p\" \"/a").is_err());
    assert!(parse("}").is_err());
}

#[test]
fn rejects_runaway_nesting() {
    let deep = format!("{}{}", "\"k\" {".repeat(200), "}".repeat(200));
    assert!(parse(&deep).is_err());
}

#[test]
fn errors_name_the_byte_and_the_reason() {
    let fault = |text: &str| parse(text).unwrap_err().describe();
    assert_eq!(fault("}"), "closing brace without a matching block at byte 0");
    assert_eq!(fault("\"r\" {"), "file ended inside a block at byte 5");
    assert_eq!(fault("\"r\""), "key has no value at byte 3");
    assert_eq!(fault("\"r"), "unterminated quoted string at byte 2");
    assert_eq!(fault("\"r\\"), "unterminated escape sequence at byte 3");
    assert_eq!(fault("{"), "expected a token at byte 0");
    let deep = format!("{}{}", "k{".repeat(33), "}".repeat(33));
    assert_eq!(fault(&deep), "nesting is deeper than the parser allows at byte 66");
    let many = "a ".repeat(400_002);
    assert_eq!(fault(&many), "file contains more tokens than the parser allows at byte 800000");
}

#[test]
fn the_limits_themselves_are_accepted() {
    let deep = format!("{}{}", "k{".repeat(32), "}".repeat(32));
    assert!(parse(&deep).is_ok());
    let many = "a ".repeat(400_000);
    assert_eq!(parse(&many).unwrap().entries().len(), 200_000);
}

#[test]
fn directives_and_comments_are_passed_over() {
    let root = parse("#base \"other.vdf\"\nr { // note\n #include \"x\"\n k v }").unwrap();
    assert_eq!(root.entries().len(), 1);
    assert_eq!(root.get("R").unwrap().get("K").unwrap().as_str(), Some("v"));
    assert!(root.get("r").unwrap().as_str().is_none());
    assert!(root.get("r").unwrap().get("k").unwrap().entries().is_empty());
}

#[test]
fn unknown_escapes_stay_as_they_are() {
    let root = parse(r#""k" "a\q\n\t\r""#).unwrap();
    assert_eq!(root.get("k").unwrap().as_str(), Some("a\\q\n\t\r"));
}

#[test]
fn files_are_read_with_replacements_and_their_errors_name_them() {
    let path = FilePath::new("/s/libraryfolders.vdf");
    let root = parse_file(&path, &b"k \"a\xffb\"".to_vec()).unwrap();
    assert_eq!(root.get("k").unwrap().as_str(), Some("a\u{fffd}b"));
    assert_eq!(
        parse_file(&path, &b"}".to_vec()).unwrap_err(),
        "/s/libraryfolders.vdf: closing brace without a matching block at byte 0"
    );
}

#[test]
fn files_over_the_limit_are_not_read() {
    let path = FilePath::new("/s/big.acf");
    assert!(check_size(&path, 8_388_608).is_ok());
    assert_eq!(
        check_size(&path, 8_388_609).unwrap_err(),
        "/s/big.acf: file is 8388609 bytes, larger than the 8388608 byte limit"
    );
}

#[test]
fn what_was_written_reads_back() {
    let plain = parse("\"a\"{\"k\"\"1\"\"k\"\"2\"}\"b\"\"x\\\"y\"").unwrap();
    let spaced = parse("// head\n \"a\"\n{\n\t\"k\" // first\n \"1\"\n\"k\"\t\"2\" }\n\"b\" \"x\\\"y\" // end").unwrap();
    for value in [&plain, &spaced] {
        let map = value.entries();
        assert_eq!(map.len(), 2);
        let inner = value.get("a").unwrap().entries();
        assert_eq!(inner.len(), 2);
        assert_eq!((inner[0].0.as_str(), inner[0].1.as_str()), ("k", Some("1")));
        assert_eq!((inner[1].0.as_str(), inner[1].1.as_str()), ("k", Some("2")));
        assert_eq!(value.get("b").unwrap().as_str(), Some("x\"y"));
    }
}
