use fsblob::resolve::{
    base_name, named_pair, plain_pair, resolve_all, resolve_reference, split_reference, NamePair,
    ResolveError, Unresolved,
};

fn pair(source_path: &str, stored_name: &str) -> NamePair {
    NamePair { source_path: source_path.to_string(), stored_name: stored_name.to_string() }
}

#[test]
fn base_name_is_the_last_component() {
    assert_eq!(base_name("a.txt"), Some("a.txt".to_string()));
    assert_eq!(base_name("data/a.txt"), Some("a.txt".to_string()));
    assert_eq!(base_name("/usr/share/data/a.txt"), Some("a.txt".to_string()));
    assert_eq!(base_name("./a.txt"), Some("a.txt".to_string()));
    assert_eq!(base_name("../a.txt"), Some("a.txt".to_string()));
}

#[test]
fn base_name_skips_slashes_and_dots_at_the_end() {
    assert_eq!(base_name("data/"), Some("data".to_string()));
    assert_eq!(base_name("data//"), Some("data".to_string()));
    assert_eq!(base_name("data/."), Some("data".to_string()));
    assert_eq!(base_name("data/./"), Some("data".to_string()));
    assert_eq!(base_name("data/.//./"), Some("data".to_string()));
    assert_eq!(base_name("a/b//c/./"), Some("c".to_string()));
}

#[test]
fn base_name_keeps_names_that_only_start_with_dots() {
    assert_eq!(base_name(".hidden"), Some(".hidden".to_string()));
    assert_eq!(base_name("dir/..."), Some("...".to_string()));
    assert_eq!(base_name("dir/..a"), Some("..a".to_string()));
    assert_eq!(base_name("dir/a."), Some("a.".to_string()));
}

#[test]
fn base_name_is_missing_where_no_component_is_left() {
    assert_eq!(base_name(""), None);
    assert_eq!(base_name("/"), None);
    assert_eq!(base_name("//"), None);
    assert_eq!(base_name("."), None);
    assert_eq!(base_name("./"), None);
    assert_eq!(base_name("./."), None);
    assert_eq!(base_name("/."), None);
}

#[test]
fn base_name_is_missing_where_the_path_ends_in_dot_dot() {
    assert_eq!(base_name(".."), None);
    assert_eq!(base_name("../"), None);
    assert_eq!(base_name("a/.."), None);
    assert_eq!(base_name("a/../"), None);
    assert_eq!(base_name("a/../."), None);
    assert_eq!(base_name("/.."), None);
}

#[test]
fn base_name_agrees_with_the_standard_library() {
    for path in [
        "", "/", ".", "..", "a", "a/", "a//", "a/.", "a/..", "a/b", "/a/b/", "./a", "../a",
        "a/./b/.", "a/b/..", "a/.../", ".a", "a..", "//a//b//", "./.", "././", "a b/c d",
        "é/ü.txt", "a/./",
    ] {
        let expected = std::path::Path::new(path)
            .file_name()
            .map(|name| name.to_string_lossy().into_owned());
        assert_eq!(base_name(path), expected, "path {:?}", path);
    }
}

#[test]
fn split_reference_without_at_is_all_path() {
    assert_eq!(split_reference("data/a.txt"), ("data/a.txt".to_string(), None));
    assert_eq!(split_reference(""), ("".to_string(), None));
}

#[test]
fn split_reference_splits_at_the_first_at() {
    assert_eq!(
        split_reference("data/a.txt@my file.bin"),
        ("data/a.txt".to_string(), Some("my file.bin".to_string()))
    );
    assert_eq!(split_reference("a@b@c"), ("a".to_string(), Some("b@c".to_string())));
    assert_eq!(split_reference("@name"), ("".to_string(), Some("name".to_string())));
    assert_eq!(split_reference("path@"), ("path".to_string(), Some("".to_string())));
    assert_eq!(split_reference("@"), ("".to_string(), Some("".to_string())));
}

#[test]
fn split_reference_counts_characters_not_bytes() {
    assert_eq!(
        split_reference("dé/ü@näme"),
        ("dé/ü".to_string(), Some("näme".to_string()))
    );
}

#[test]
fn named_pair_takes_the_unescaped_name() {
    assert_eq!(
        named_pair("data/a.txt".to_string(), Ok("my file.bin".to_string())),
        Ok(pair("data/a.txt", "my file.bin"))
    );
}

#[test]
fn named_pair_turns_an_unescape_error_into_invalid_escape() {
    let failed = snailquote::unescape("\"\\x\"");
    assert!(failed.is_err());
    assert_eq!(named_pair("data/a.txt".to_string(), failed), Err(ResolveError::InvalidEscape));
    let failed = snailquote::unescape("\"\\u{ffffffff}\"");
    assert_eq!(named_pair("p".to_string(), failed), Err(ResolveError::InvalidEscape));
}

#[test]
fn plain_pair_stores_under_the_file_name() {
    assert_eq!(plain_pair("data/a.txt".to_string()), Ok(pair("data/a.txt", "a.txt")));
    assert_eq!(plain_pair("a.txt".to_string()), Ok(pair("a.txt", "a.txt")));
}

#[test]
fn plain_pair_without_file_name_is_an_error() {
    assert_eq!(plain_pair("..".to_string()), Err(ResolveError::NoFileName));
    assert_eq!(plain_pair("/".to_string()), Err(ResolveError::NoFileName));
    assert_eq!(plain_pair("".to_string()), Err(ResolveError::NoFileName));
}

#[test]
fn plain_reference_resolves_to_its_file_name() {
    assert_eq!(resolve_reference("data/a.txt"), Ok(pair("data/a.txt", "a.txt")));
    assert_eq!(resolve_reference("tile1.tg~"), Ok(pair("tile1.tg~", "tile1.tg~")));
    assert_eq!(resolve_reference("some/dir/"), Ok(pair("some/dir/", "dir")));
}

#[test]
fn plain_reference_without_file_name_is_an_error() {
    assert_eq!(resolve_reference("data/.."), Err(ResolveError::NoFileName));
    assert_eq!(resolve_reference(""), Err(ResolveError::NoFileName));
}

#[test]
fn escaped_reference_keeps_the_space() {
    assert_eq!(
        resolve_reference("data/a.txt@my file.bin"),
        Ok(pair("data/a.txt", "my file.bin"))
    );
}

#[test]
fn display_name_is_unescaped() {
    assert_eq!(resolve_reference("a.bin@'my file'"), Ok(pair("a.bin", "my file")));
    assert_eq!(resolve_reference("a.bin@\"my\\\"file\""), Ok(pair("a.bin", "my\"file")));
    assert_eq!(resolve_reference("a.bin@\"tab\\there\""), Ok(pair("a.bin", "tab\there")));
    assert_eq!(resolve_reference("a.bin@\"\\u{e9}t\\u{e9}\""), Ok(pair("a.bin", "été")));
    assert_eq!(resolve_reference("a.bin@'one'two\"three\""), Ok(pair("a.bin", "onetwothree")));
}

#[test]
fn display_name_may_hold_an_at() {
    assert_eq!(resolve_reference("a.bin@user@host"), Ok(pair("a.bin", "user@host")));
}

#[test]
fn display_name_is_not_cut_by_the_resolver() {
    assert_eq!(
        resolve_reference("a.bin@a-very-long-display-name.bin"),
        Ok(pair("a.bin", "a-very-long-display-name.bin"))
    );
}

#[test]
fn reference_with_display_name_needs_no_file_name() {
    assert_eq!(resolve_reference("..@up"), Ok(pair("..", "up")));
    assert_eq!(resolve_reference("@name"), Ok(pair("", "name")));
    assert_eq!(resolve_reference("path@"), Ok(pair("path", "")));
}

#[test]
fn invalid_escape_in_the_display_name_is_an_error() {
    assert_eq!(resolve_reference("a.bin@\"\\x\""), Err(ResolveError::InvalidEscape));
    assert_eq!(resolve_reference("a.bin@\"\\u12\""), Err(ResolveError::InvalidEscape));
    assert_eq!(resolve_reference("a.bin@\"ends with \\"), Err(ResolveError::InvalidEscape));
}

#[test]
fn resolve_all_keeps_the_order() {
    let references = [
        "b/two.bin".to_string(),
        "a/one.bin@'first one'".to_string(),
        "three".to_string(),
    ];
    assert_eq!(
        resolve_all(&references),
        Ok(vec![
            pair("b/two.bin", "two.bin"),
            pair("a/one.bin", "first one"),
            pair("three", "three"),
        ])
    );
}

#[test]
fn resolve_all_of_nothing_is_nothing() {
    assert_eq!(resolve_all(&[]), Ok(vec![]));
}

#[test]
fn resolve_all_names_the_first_reference_that_fails() {
    let references = [
        "ok.bin".to_string(),
        "x@\"\\q\"".to_string(),
        "..".to_string(),
    ];
    assert_eq!(
        resolve_all(&references),
        Err(Unresolved { index: 1, error: ResolveError::InvalidEscape })
    );
    let references = ["ok.bin".to_string(), "also/ok".to_string(), "dir/..".to_string()];
    assert_eq!(
        resolve_all(&references),
        Err(Unresolved { index: 2, error: ResolveError::NoFileName })
    );
}
