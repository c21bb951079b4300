//! The output of a run: which directory entries are bookmarks, and the
//! line that each bookmark puts on standard output or standard error.
use vstd::prelude::*;
use vstd::string::StringExecFns;
use crate::link::texts;
use crate::name::{get_stem, is_webloc, is_webloc_name, stem_text};

verus! {

/// The Markdown list entry for a bookmark.
pub open spec fn entry_line(stem: Seq<char>, url: Seq<char>) -> Seq<char> {
    "* ["@ + stem + "]( "@ + url + " )"@
}

/// The warning for a file that holds no link.
pub open spec fn warning_line(path: Seq<char>) -> Seq<char> {
    "warning: failed to parse "@ + path
}

/// Formats the list entry of a bookmark with stem `stem` and URL `url`.
pub fn entry(stem: &str, url: &str) -> (r: String)
    ensures
        r@ == entry_line(stem@, url@),
{
    let mut s = String::new();
    s.append("* [");
    s.append(stem);
    s.append("]( ");
    s.append(url);
    s.append(" )");
    assert(s@ =~= entry_line(stem@, url@));
    s
}

/// Formats the warning for the file shown as `path`.
pub fn warning(path: &str) -> (r: String)
    ensures
        r@ == warning_line(path@),
{
    let mut s = String::new();
    s.append("warning: failed to parse ");
    s.append(path);
    assert(s@ =~= warning_line(path@));
    s
}

/// A bookmark file that was found, with what its reading gave.
pub struct Found {
    /// The bytes of the file's name.
    pub name: Vec<u8>,
    /// The file's path as it is shown to the user.
    pub display: String,
    /// The link it holds, if any.
    pub link: Option<String>,
}

/// What a found file is made of, as values.
pub struct FoundView {
    pub name: Seq<u8>,
    pub display: Seq<char>,
    pub link: Option<Seq<char>>,
}

impl View for Found {
    type V = FoundView;

    open spec fn view(&self) -> FoundView {
        FoundView {
            name: self.name@,
            display: self.display@,
            link: match self.link {
                Some(s) => Some(s@),
                None => None,
            },
        }
    }
}

/// The positions of the bookmark files among the entries named `names`:
/// every bookmark, in the order of the entries, and nothing else.
pub fn select_weblocs(names: &Vec<Vec<u8>>) -> (r: Vec<usize>)
    ensures
        forall|k: int| 0 <= k < r@.len() ==> #[trigger] r@[k] < names@.len() && is_webloc_name(names@[r@[k] as int]@),
        forall|k: int, l: int| 0 <= k < l < r@.len() ==> r@[k] < r@[l],
        forall|j: int| 0 <= j < names@.len() && is_webloc_name(#[trigger] names@[j]@) ==> exists|k: int| 0 <= k < r@.len() && r@[k] == j,
{
    let mut r: Vec<usize> = Vec::new();
    let mut i: usize = 0;
    while i < names.len()
        invariant
            i <= names@.len(),
            forall|k: int| 0 <= k < r@.len() ==> #[trigger] r@[k] < i && is_webloc_name(names@[r@[k] as int]@),
            forall|k: int, l: int| 0 <= k < l < r@.len() ==> r@[k] < r@[l],
            forall|j: int| 0 <= j < i && is_webloc_name(#[trigger] names@[j]@) ==> exists|k: int| 0 <= k < r@.len() && r@[k] == j,
        decreases names@.len() - i,
    {
        if is_webloc(names[i].as_slice()) {
            let ghost before = r@;
            r.push(i);
            assert forall|j: int| 0 <= j < i + 1 && is_webloc_name(#[trigger] names@[j]@) implies exists|k: int| 0 <= k < r@.len() && r@[k] == j by {
                if j < i {
                    let k = choose|k: int| 0 <= k < before.len() && before[k] == j;
                    assert(r@[k] == j);
                } else {
                    assert(r@[before.len() as int] == j);
                }
            }
        }
        i = i + 1;
    }
    r
}

/// The line that a found file writes to standard output (`out`) or to
/// standard error (`!out`), if any.
pub open spec fn stream_line(f: FoundView, out: bool) -> Option<Seq<char>> {
    match f.link {
        Some(url) => if out {
            Some(entry_line(stem_text(f.name), url))
        } else {
            None
        },
        None => if out {
            None
        } else {
            Some(warning_line(f.display))
        },
    }
}

/// The lines that the found files write to one stream, in their order.
pub open spec fn stream_lines(fs: Seq<FoundView>, out: bool) -> Seq<Seq<char>>
    decreases fs.len(),
{
    if fs.len() == 0 {
        seq![]
    } else {
        let before = stream_lines(fs.drop_last(), out);
        match stream_line(fs.last(), out) {
            Some(l) => before.push(l),
            None => before,
        }
    }
}

/// The values of the found files.
pub open spec fn found_views(fs: Seq<Found>) -> Seq<FoundView> {
    fs.map_values(|f: Found| f@)
}

/// The lines written by a run: standard output, then standard error.
pub struct Report {
    pub out: Vec<String>,
    pub err: Vec<String>,
}

/// The line that the found file `f` writes, and whether it goes to
/// standard output.
pub fn report_line(f: &Found) -> (r: (bool, String))
    ensures
        stream_line(f@, r.0) == Some(r.1@),
        stream_line(f@, !r.0) is None,
{
    match &f.link {
        Some(url) => {
            let stem = get_stem(f.name.as_slice());
            (true, entry(stem.as_str(), url.as_str()))
        },
        None => (false, warning(f.display.as_str())),
    }
}

/// The lines that the found files write, each stream in the order of the
/// files.
pub fn report(found: &Vec<Found>) -> (r: Report)
    ensures
        texts(r.out@) == stream_lines(found_views(found@), true),
        texts(r.err@) == stream_lines(found_views(found@), false),
{
    let mut out: Vec<String> = Vec::new();
    let mut err: Vec<String> = Vec::new();
    let mut i: usize = 0;
    while i < found.len()
        invariant
            i <= found@.len(),
            texts(out@) =~= stream_lines(found_views(found@.subrange(0, i as int)), true),
            texts(err@) =~= stream_lines(found_views(found@.subrange(0, i as int)), false),
        decreases found@.len() - i,
    {
        let (to_out, line) = report_line(&found[i]);
        proof {
            let seen = found_views(found@.subrange(0, i + 1));
            assert(seen.drop_last() =~= found_views(found@.subrange(0, i as int)));
            assert(seen.last() == found@[i as int]@);
        }
        if to_out {
            out.push(line);
        } else {
            err.push(line);
        }
        i = i + 1;
    }
    assert(found@.subrange(0, i as int) =~= found@);
    Report { out, err }
}

/// A line is among those that the found files `fs` write to a stream
/// exactly when one of the files writes it there.
proof fn lemma_stream_lines_contain(fs: Seq<FoundView>, out: bool, l: Seq<char>)
    ensures
        stream_lines(fs, out).contains(l) <==> exists|i: int| 0 <= i < fs.len() && #[trigger] stream_line(fs[i], out) == Some(l),
    decreases fs.len(),
{
    if fs.len() > 0 {
        let before = fs.drop_last();
        let s = stream_lines(before, out);
        let all = stream_lines(fs, out);
        lemma_stream_lines_contain(before, out, l);
        assert forall|i: int| 0 <= i < before.len() implies before[i] == fs[i] by {}
        if exists|i: int| 0 <= i < fs.len() && #[trigger] stream_line(fs[i], out) == Some(l) {
            let i = choose|i: int| 0 <= i < fs.len() && #[trigger] stream_line(fs[i], out) == Some(l);
            if i < fs.len() - 1 {
                assert(stream_line(before[i], out) == Some(l));
                let k = choose|k: int| 0 <= k < s.len() && s[k] == l;
                assert(all[k] == l);
            } else {
                assert(all[all.len() - 1] == l);
            }
            assert(all.contains(l));
        }
        if all.contains(l) {
            let k = choose|k: int| 0 <= k < all.len() && all[k] == l;
            if k < s.len() {
                assert(s[k] == l);
                let i = choose|i: int| 0 <= i < before.len() && #[trigger] stream_line(before[i], out) == Some(l);
                assert(stream_line(fs[i], out) == Some(l));
            } else {
                assert(stream_line(fs[fs.len() - 1], out) == Some(l));
            }
        }
    }
}

/// Files found under one root, then under another, write the lines of
/// the first root and then those of the second, on each stream.
pub proof fn lemma_roots_in_order(a: Seq<FoundView>, b: Seq<FoundView>, out: bool)
    ensures
        stream_lines(a + b, out) == stream_lines(a, out) + stream_lines(b, out),
    decreases b.len(),
{
    if b.len() == 0 {
        assert(a + b =~= a);
        assert(stream_lines(a, out) + stream_lines(b, out) =~= stream_lines(a, out));
    } else {
        assert((a + b).drop_last() =~= a + b.drop_last());
        assert((a + b).last() == b.last());
        lemma_roots_in_order(a, b.drop_last(), out);
        match stream_line(b.last(), out) {
            Some(l) => {
                assert(stream_lines(a, out) + stream_lines(b.drop_last(), out).push(l) =~= (stream_lines(a, out) + stream_lines(b.drop_last(), out)).push(l));
            },
            None => {},
        }
    }
}

/// The same files, found in any order, write the same set of lines to
/// each stream.
pub proof fn lemma_order_free_lines(a: Seq<FoundView>, b: Seq<FoundView>, out: bool)
    requires
        a.to_set() == b.to_set(),
    ensures
        stream_lines(a, out).to_set() == stream_lines(b, out).to_set(),
{
    assert forall|l: Seq<char>| stream_lines(a, out).to_set().contains(l) implies stream_lines(b, out).to_set().contains(l) by {
        lemma_stream_lines_contain(a, out, l);
        lemma_stream_lines_contain(b, out, l);
        let i = choose|i: int| 0 <= i < a.len() && #[trigger] stream_line(a[i], out) == Some(l);
        assert(a.to_set().contains(a[i]));
        assert(b.contains(a[i]));
        let j = choose|j: int| 0 <= j < b.len() && b[j] == a[i];
        assert(stream_line(b[j], out) == Some(l));
    }
    assert forall|l: Seq<char>| stream_lines(b, out).to_set().contains(l) implies stream_lines(a, out).to_set().contains(l) by {
        lemma_stream_lines_contain(a, out, l);
        lemma_stream_lines_contain(b, out, l);
        let j = choose|j: int| 0 <= j < b.len() && #[trigger] stream_line(b[j], out) == Some(l);
        assert(b.to_set().contains(b[j]));
        assert(a.contains(b[j]));
        let i = choose|i: int| 0 <= i < a.len() && a[i] == b[j];
        assert(stream_line(a[i], out) == Some(l));
    }
    assert(stream_lines(a, out).to_set() =~= stream_lines(b, out).to_set());
}

} // verus!
