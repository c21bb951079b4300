use webloc_links::name::{find_last_dot, get_stem, is_webloc};

#[test]
fn webloc_extension_is_selected() {
    assert!(is_webloc(b"Example.webloc"));
    assert!(is_webloc(b"a.b.webloc"));
    assert!(is_webloc(&[0xff, 0xfe, b'.', b'w', b'e', b'b', b'l', b'o', b'c']));
}

#[test]
fn other_names_are_not_bookmarks() {
    assert!(!is_webloc(b"notes.txt"));
    assert!(!is_webloc(b"webloc"));
    assert!(!is_webloc(b".webloc"));
    assert!(!is_webloc(b"Example.WEBLOC"));
    assert!(!is_webloc(b"Example.webloc.bak"));
    assert!(!is_webloc(b"Example.weblocx"));
    assert!(!is_webloc(b"Example.webl"));
    assert!(!is_webloc(b"Example."));
    assert!(!is_webloc(b""));
    assert!(!is_webloc(b".."));
}

#[test]
fn stem_drops_last_extension() {
    assert_eq!(get_stem(b"Example.webloc"), "Example");
    assert_eq!(get_stem(b"a.b.webloc"), "a.b");
    assert_eq!(get_stem(b"noext"), "noext");
    assert_eq!(get_stem(b".hidden"), ".hidden");
    assert_eq!(get_stem(b".."), "..");
    assert_eq!(get_stem(b"trailing."), "trailing");
}

#[test]
fn stem_of_non_utf8_name_is_placeholder() {
    let name = [b'a', 0xff, b'.', b'w', b'e', b'b', b'l', b'o', b'c'];
    assert_eq!(get_stem(&name), "(non_utf8_file_name)");
}

#[test]
fn stem_is_utf8_even_when_extension_is_not() {
    let name = [b'N', b'e', b'w', b's', b'.', 0xff];
    assert_eq!(get_stem(&name), "News");
    assert_eq!(get_stem("Café.webloc".as_bytes()), "Café");
}

#[test]
fn last_dot_is_found() {
    assert_eq!(find_last_dot(b"a.b.c"), Some(3));
    assert_eq!(find_last_dot(b"abc"), None);
    assert_eq!(find_last_dot(b".x"), Some(0));
}

#[test]
fn stem_bytes_and_shown_stem() {
    assert_eq!(webloc_links::name::stem_of(b"Example.webloc"), b"Example");
    assert_eq!(webloc_links::name::stem_of(b".hidden"), b".hidden");
    assert_eq!(webloc_links::name::shown_stem(Some("Example".to_string())), "Example");
    assert_eq!(webloc_links::name::shown_stem(None), "(non_utf8_file_name)");
}
