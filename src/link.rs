//! Pulling the bookmarked URL out of the lines of a `.webloc` file.
//!
//! The URL is the text of the one line laid out as a tab, `<string>`, the
//! URL and `</string>`. A file with no such line, or with more than one,
//! holds no link.
use vstd::prelude::*;
use regex::Regex;

verus! {

#[verifier::external_type_specification]
#[verifier::external_body]
pub struct ExRegex(regex::Regex);

/// The pattern that a compiled regular expression was built from.
pub uninterp spec fn regex_source(re: Regex) -> Seq<char>;

/// The pattern of a URL line, its URL in the first group.
pub open spec fn link_pattern() -> Seq<char> {
    "^\\t<string>(.*)</string>$"@
}

/// A tab followed by `<string>`.
pub open spec fn open_tag() -> Seq<char> {
    seq!['\t', '<', 's', 't', 'r', 'i', 'n', 'g', '>']
}

/// The text `</string>`.
pub open spec fn close_tag() -> Seq<char> {
    seq!['<', '/', 's', 't', 'r', 'i', 'n', 'g', '>']
}

/// The URL that one line holds: the text between a leading `open_tag` and
/// a `close_tag` that ends the line, where that text has no line break.
pub open spec fn line_link(line: Seq<char>) -> Option<Seq<char>> {
    let n = line.len() as int;
    if n >= 18 && line.subrange(0, 9) == open_tag() && line.subrange(n - 9, n) == close_tag()
        && !line.subrange(9, n - 9).contains('\n') {
        Some(line.subrange(9, n - 9))
    } else {
        None
    }
}

/// The URLs that the lines hold, in the order of the lines.
pub open spec fn line_links(lines: Seq<Seq<char>>) -> Seq<Seq<char>>
    decreases lines.len(),
{
    if lines.len() == 0 {
        seq![]
    } else {
        let before = line_links(lines.drop_last());
        match line_link(lines.last()) {
            Some(url) => before.push(url),
            None => before,
        }
    }
}

/// The link of a file with these lines: the URL of its one URL line.
pub open spec fn unique_link(lines: Seq<Seq<char>>) -> Option<Seq<char>> {
    let urls = line_links(lines);
    if urls.len() == 1 {
        Some(urls[0])
    } else {
        None
    }
}

/// Lines without a URL line hold no URLs.
proof fn lemma_no_urls(lines: Seq<Seq<char>>)
    requires
        forall|j: int| 0 <= j < lines.len() ==> (#[trigger] line_link(lines[j])) is None,
    ensures
        line_links(lines).len() == 0,
    decreases lines.len(),
{
    if lines.len() > 0 {
        lemma_no_urls(lines.drop_last());
    }
}

/// Lines with a URL line at `i` hold at least one URL.
proof fn lemma_some_url(lines: Seq<Seq<char>>, i: int)
    requires
        0 <= i < lines.len(),
        line_link(lines[i]) is Some,
    ensures
        line_links(lines).len() >= 1,
    decreases lines.len(),
{
    if i < lines.len() - 1 {
        lemma_some_url(lines.drop_last(), i);
    }
}

/// A file whose only URL line is the line at `i` has the URL of that line
/// as its link, verbatim.
pub proof fn lemma_one_url_line(lines: Seq<Seq<char>>, i: int)
    requires
        0 <= i < lines.len(),
        line_link(lines[i]) is Some,
        forall|j: int| 0 <= j < lines.len() && j != i ==> (#[trigger] line_link(lines[j])) is None,
    ensures
        unique_link(lines) == line_link(lines[i]),
        line_links(lines) == seq![line_link(lines[i])->Some_0],
    decreases lines.len(),
{
    let before = lines.drop_last();
    if i == lines.len() - 1 {
        assert forall|j: int| 0 <= j < before.len() implies (#[trigger] line_link(before[j])) is None by {
            assert(before[j] == lines[j]);
        }
        lemma_no_urls(before);
        assert(line_links(lines) =~= seq![line_link(lines[i])->Some_0]);
    } else {
        assert forall|j: int| 0 <= j < before.len() && j != i implies (#[trigger] line_link(before[j])) is None by {
            assert(before[j] == lines[j]);
        }
        assert(before[i] == lines[i]);
        lemma_one_url_line(before, i);
        assert(line_link(lines[lines.len() - 1]) is None);
    }
}

/// A file without a URL line has no link.
pub proof fn lemma_no_url_line(lines: Seq<Seq<char>>)
    requires
        forall|j: int| 0 <= j < lines.len() ==> (#[trigger] line_link(lines[j])) is None,
    ensures
        unique_link(lines) is None,
{
    lemma_no_urls(lines);
}

/// A file with two URL lines, at `i` and `j`, has no link.
pub proof fn lemma_two_url_lines(lines: Seq<Seq<char>>, i: int, j: int)
    requires
        0 <= i < j < lines.len(),
        line_link(lines[i]) is Some,
        line_link(lines[j]) is Some,
    ensures
        line_links(lines).len() >= 2,
        unique_link(lines) is None,
    decreases lines.len(),
{
    let before = lines.drop_last();
    assert(before[i] == lines[i]);
    if j == lines.len() - 1 {
        lemma_some_url(before, i);
    } else {
        assert(before[j] == lines[j]);
        lemma_two_url_lines(before, i, j);
    }
}

/// The text of each line.
pub open spec fn texts(lines: Seq<String>) -> Seq<Seq<char>> {
    lines.map_values(|s: String| s@)
}

/// The text of an optional string.
pub open spec fn text_of(o: Option<String>) -> Option<Seq<char>> {
    match o {
        Some(s) => Some(s@),
        None => None,
    }
}

/// Relies on regex::Regex::new: the pattern compiles, and the regular
/// expression keeps it as its source. Only the URL line pattern, which is
/// valid and small, is admitted.
#[verifier::external_body]
fn compile(pattern: &str) -> (r: Regex)
    requires
        pattern@ == link_pattern(),
    ensures
        regex_source(r) == pattern@,
{
    Regex::new(pattern).unwrap()
}

/// Relies on regex::Regex::captures and Captures::get: with the URL line
/// pattern, anchored at both ends, a line matches exactly when it is a tab,
/// `<string>`, text without a line break and `</string>`; the first group
/// is that text.
#[verifier::external_body]
fn first_group(re: &Regex, line: &str) -> (r: Option<String>)
    requires
        regex_source(*re) == link_pattern(),
    ensures
        text_of(r) == line_link(line@),
{
    re.captures(line).and_then(|c| c.get(1)).map(|m| m.as_str().to_string())
}

/// Finds the URL of a bookmark in its lines.
pub struct Extractor {
    re: Regex,
}

impl Extractor {
    #[verifier::type_invariant]
    spec fn inv(self) -> bool {
        regex_source(self.re) == link_pattern()
    }

    /// An extractor for the URL line pattern.
    pub fn new() -> (r: Extractor) {
        Extractor { re: compile("^\\t<string>(.*)</string>$") }
    }

    /// The URL that `line` holds, if it is a URL line.
    pub fn link(&self, line: &str) -> (r: Option<String>)
        ensures
            text_of(r) == line_link(line@),
    {
        proof {
            use_type_invariant(self);
        }
        first_group(&self.re, line)
    }

    /// The URL of a file with these lines: present when exactly one line
    /// is a URL line.
    pub fn link_of_lines(&self, lines: &Vec<String>) -> (r: Option<String>)
        ensures
            text_of(r) == unique_link(texts(lines@)),
    {
        let mut urls: Vec<String> = Vec::new();
        let mut i: usize = 0;
        while i < lines.len()
            invariant
                i <= lines@.len(),
                texts(urls@) =~= line_links(texts(lines@.subrange(0, i as int))),
            decreases lines@.len() - i,
        {
            let found = self.link(lines[i].as_str());
            proof {
                let seen = lines@.subrange(0, i + 1);
                assert(texts(seen).drop_last() =~= texts(lines@.subrange(0, i as int)));
                assert(texts(seen).last() == lines@[i as int]@);
            }
            match found {
                Some(url) => {
                    urls.push(url);
                },
                None => {},
            }
            i = i + 1;
        }
        assert(lines@.subrange(0, i as int) =~= lines@);
        if urls.len() == 1 {
            let url = urls.pop();
            url
        } else {
            None
        }
    }

    /// The link of a file, given its lines, or nothing where it could not
    /// be read: an unreadable file holds no link.
    pub fn read_link(&self, contents: Option<&Vec<String>>) -> (r: Option<String>)
        ensures
            match contents {
                Some(lines) => text_of(r) == unique_link(texts(lines@)),
                None => r is None,
            },
    {
        match contents {
            Some(lines) => self.link_of_lines(lines),
            None => None,
        }
    }
}

} // verus!
