//! File names: the extension that marks a bookmark and the stem shown for it.
//!
//! A name is held as the bytes of its encoding, so names that are not
//! valid UTF-8 are handled too.
use vstd::prelude::*;

verus! {

/// Byte of the dot that separates a stem from its extension.
pub const DOT: u8 = 46;

/// Index of the last dot in `name`, or -1 where it has none.
pub open spec fn last_dot(name: Seq<u8>) -> int
    decreases name.len(),
{
    if name.len() == 0 {
        -1
    } else if name.last() == DOT {
        name.len() - 1
    } else {
        last_dot(name.drop_last())
    }
}

/// The last dot lies within the name.
pub proof fn lemma_last_dot_bounds(name: Seq<u8>)
    ensures
        -1 <= last_dot(name) < name.len(),
        last_dot(name) >= 0 ==> name[last_dot(name)] == DOT,
    decreases name.len(),
{
    if name.len() > 0 && name.last() != DOT {
        lemma_last_dot_bounds(name.drop_last());
    }
}

/// The name `..`, which has no extension.
pub open spec fn parent_name() -> Seq<u8> {
    seq![DOT, DOT]
}

/// Whether `name` splits into stem and extension: at its last dot, when
/// that dot is not its first byte and the name is not `..`.
pub open spec fn splits(name: Seq<u8>) -> bool {
    0 < last_dot(name) < name.len() && name != parent_name()
}

/// The name without its last extension.
pub open spec fn stem_bytes(name: Seq<u8>) -> Seq<u8> {
    if splits(name) {
        name.subrange(0, last_dot(name))
    } else {
        name
    }
}

/// What follows the last dot of the name, where it splits.
pub open spec fn extension(name: Seq<u8>) -> Option<Seq<u8>> {
    if splits(name) {
        Some(name.subrange(last_dot(name) + 1, name.len() as int))
    } else {
        None
    }
}

/// The bytes of `webloc`.
pub open spec fn webloc_ext() -> Seq<u8> {
    seq![119u8, 101u8, 98u8, 108u8, 111u8, 99u8]
}

/// A bookmark file is one whose extension is exactly `webloc`.
pub open spec fn is_webloc_name(name: Seq<u8>) -> bool {
    extension(name) == Some(webloc_ext())
}

/// What the UTF-8 decoding of `bytes` gives: the text, or nothing where
/// the bytes are not valid UTF-8.
pub uninterp spec fn utf8_decoded(bytes: Seq<u8>) -> Option<Seq<char>>;

/// Stem shown for a name whose stem is not valid UTF-8.
pub open spec fn placeholder_stem() -> Seq<char> {
    "(non_utf8_file_name)"@
}

/// The text shown for a bookmark named `name`.
pub open spec fn stem_text(name: Seq<u8>) -> Seq<char> {
    match utf8_decoded(stem_bytes(name)) {
        Some(s) => s,
        None => placeholder_stem(),
    }
}

/// Relies on std::str::from_utf8: the text of the bytes where they are
/// valid UTF-8, an error otherwise.
#[verifier::external_body]
fn decode_utf8(bytes: &[u8]) -> (r: Option<String>)
    ensures
        match r {
            Some(s) => utf8_decoded(bytes@) == Some(s@),
            None => utf8_decoded(bytes@) is None,
        },
{
    std::str::from_utf8(bytes).ok().map(|s| s.to_string())
}

/// Finds the index of the last dot of `name`.
pub fn find_last_dot(name: &[u8]) -> (r: Option<usize>)
    ensures
        match r {
            Some(d) => last_dot(name@) == d as int,
            None => last_dot(name@) == -1,
        },
{
    let mut i: usize = name.len();
    assert(name@.subrange(0, i as int) =~= name@);
    while i > 0
        invariant
            i <= name@.len(),
            last_dot(name@) == last_dot(name@.subrange(0, i as int)),
        decreases i,
    {
        let prefix = Ghost(name@.subrange(0, i as int));
        if name[i - 1] == DOT {
            assert(prefix@.last() == DOT);
            return Some(i - 1);
        }
        assert(prefix@.drop_last() =~= name@.subrange(0, i - 1));
        i = i - 1;
    }
    assert(name@.subrange(0, 0) =~= Seq::<u8>::empty());
    None
}

/// Whether `name` splits into stem and extension, with the dot at `d`.
fn split_at_dot(name: &[u8]) -> (r: Option<usize>)
    ensures
        match r {
            Some(d) => splits(name@) && last_dot(name@) == d as int,
            None => !splits(name@),
        },
{
    proof {
        lemma_last_dot_bounds(name@);
    }
    match find_last_dot(name) {
        Some(d) => {
            if d == 0 || (name.len() == 2 && name[0] == DOT && name[1] == DOT) {
                assert(d > 0 ==> name@ =~= parent_name());
                None
            } else {
                assert(name@ != parent_name()) by {
                    if name@ == parent_name() {
                        assert(name@[0] == DOT && name@[1] == DOT);
                    }
                }
                Some(d)
            }
        },
        None => None,
    }
}

/// Whether the file named `name` is a bookmark: its extension is `webloc`.
pub fn is_webloc(name: &[u8]) -> (r: bool)
    ensures
        r == is_webloc_name(name@),
{
    match split_at_dot(name) {
        Some(d) => {
            let n = name.len();
            let ext = Ghost(name@.subrange(d + 1, n as int));
            if n - d - 1 == 6 && name[d + 1] == 119u8 && name[d + 2] == 101u8 && name[d + 3] == 98u8
                && name[d + 4] == 108u8 && name[d + 5] == 111u8 && name[d + 6] == 99u8 {
                assert(ext@ =~= webloc_ext());
                true
            } else {
                assert(ext@ != webloc_ext()) by {
                    if ext@ == webloc_ext() {
                        assert(ext@.len() == 6);
                        assert(ext@[0] == 119u8 && ext@[1] == 101u8 && ext@[2] == 98u8);
                        assert(ext@[3] == 108u8 && ext@[4] == 111u8 && ext@[5] == 99u8);
                    }
                }
                false
            }
        },
        None => false,
    }
}

/// The bytes of `name` without its last extension.
pub fn stem_of(name: &[u8]) -> (r: &[u8])
    ensures
        r@ == stem_bytes(name@),
{
    let stem: &[u8] = match split_at_dot(name) {
        Some(d) => vstd::slice::slice_subrange(name, 0, d),
        None => name,
    };
    assert(stem@ =~= stem_bytes(name@));
    stem
}

/// The stem to show, given the decoding of a stem's bytes: the decoded
/// text, or the placeholder where the bytes were not valid UTF-8.
pub fn shown_stem(decoded: Option<String>) -> (r: String)
    ensures
        r@ == match decoded {
            Some(s) => s@,
            None => placeholder_stem(),
        },
{
    match decoded {
        Some(s) => s,
        None => "(non_utf8_file_name)".to_owned(),
    }
}

/// The stem of the file named `name`: the name without its last
/// extension, or a fixed placeholder where that is not valid UTF-8.
pub fn get_stem(name: &[u8]) -> (r: String)
    ensures
        r@ == stem_text(name@),
{
    shown_stem(decode_utf8(stem_of(name)))
}

} // verus!
