use webloc_links::link::Extractor;
use webloc_links::report::{entry, report, report_line, select_weblocs, warning, Found};

fn found(name: &str, display: &str, link: Option<&str>) -> Found {
    Found {
        name: name.as_bytes().to_vec(),
        display: display.to_string(),
        link: link.map(|s| s.to_string()),
    }
}

#[test]
fn entry_is_markdown_item() {
    assert_eq!(entry("News", "https://example.com"), "* [News]( https://example.com )");
    assert_eq!(entry("", ""), "* [](  )");
}

#[test]
fn warning_names_the_path() {
    assert_eq!(warning("/tmp/x/Broken.webloc"), "warning: failed to parse /tmp/x/Broken.webloc");
}

#[test]
fn report_line_picks_the_stream() {
    assert_eq!(
        report_line(&found("News.webloc", "d/News.webloc", Some("https://example.com"))),
        (true, "* [News]( https://example.com )".to_string())
    );
    assert_eq!(
        report_line(&found("Broken.webloc", "d/Broken.webloc", None)),
        (false, "warning: failed to parse d/Broken.webloc".to_string())
    );
}

#[test]
fn one_good_bookmark_writes_one_entry() {
    let x = Extractor::new();
    let lines = vec!["<dict>".to_string(), "\t<string>https://example.com</string>".to_string(), "</dict>".to_string()];
    let link = x.read_link(Some(&lines));
    let r = report(&vec![Found { name: b"News.webloc".to_vec(), display: "dir/News.webloc".to_string(), link }]);
    assert_eq!(r.out, vec!["* [News]( https://example.com )".to_string()]);
    assert!(r.err.is_empty());
}

#[test]
fn broken_bookmark_writes_a_warning() {
    let x = Extractor::new();
    let lines = vec!["<dict>".to_string(), "</dict>".to_string()];
    let link = x.read_link(Some(&lines));
    let r = report(&vec![Found { name: b"Broken.webloc".to_vec(), display: "dir/Broken.webloc".to_string(), link }]);
    assert!(r.out.is_empty());
    assert_eq!(r.err, vec!["warning: failed to parse dir/Broken.webloc".to_string()]);
}

#[test]
fn roots_keep_their_order() {
    let first = found("A.webloc", "one/A.webloc", Some("https://a.example"));
    let second = found("B.webloc", "two/B.webloc", Some("https://b.example"));
    let r = report(&vec![first, second]);
    assert_eq!(r.out, vec!["* [A]( https://a.example )".to_string(), "* [B]( https://b.example )".to_string()]);
    assert!(r.err.is_empty());
}

#[test]
fn nothing_found_writes_nothing() {
    let r = report(&Vec::new());
    assert!(r.out.is_empty());
    assert!(r.err.is_empty());
}

#[test]
fn found_order_does_not_change_the_lines() {
    let a = || found("A.webloc", "A.webloc", Some("https://a.example"));
    let b = || found("B.webloc", "B.webloc", None);
    let c = || found("C.webloc", "C.webloc", Some("https://c.example"));
    let r1 = report(&vec![a(), b(), c()]);
    let r2 = report(&vec![c(), a(), b()]);
    let mut o1 = r1.out.clone();
    let mut o2 = r2.out.clone();
    o1.sort();
    o2.sort();
    assert_eq!(o1, o2);
    assert_eq!(r1.err, r2.err);
    let again = report(&vec![a(), b(), c()]);
    assert_eq!(r1.out, again.out);
    assert_eq!(r1.err, again.err);
}

#[test]
fn only_bookmarks_are_selected() {
    let names: Vec<Vec<u8>> = ["root", "a.txt", "News.webloc", "sub", ".webloc", "deep.webloc", "x.webloc.old", "y.WEBLOC"]
        .iter()
        .map(|s| s.as_bytes().to_vec())
        .collect();
    assert_eq!(select_weblocs(&names), vec![2, 5]);
    assert_eq!(select_weblocs(&Vec::new()), Vec::<usize>::new());
}
