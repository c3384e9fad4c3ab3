//! Rules on entry names: which entries are operating-system clutter, and
//! which are images. Names are matched on their UTF-8 bytes, case-sensitively.
use vstd::prelude::*;
use vstd::utf8::{decode_utf8, encode_utf8, encode_utf8_decode_utf8};

verus! {

pub open spec fn has_prefix(s: Seq<u8>, p: Seq<u8>) -> bool {
    p.len() <= s.len() && s.subrange(0, p.len() as int) == p
}

pub open spec fn has_suffix(s: Seq<u8>, p: Seq<u8>) -> bool {
    p.len() <= s.len() && s.subrange(s.len() - p.len(), s.len() as int) == p
}

pub open spec fn name_has_suffix(name: Seq<char>, suffix: Seq<char>) -> bool {
    has_suffix(encode_utf8(name), encode_utf8(suffix))
}

/// An entry under the macOS resource-fork directory, or a Finder marker file.
pub open spec fn is_junk_name(name: Seq<char>) -> bool {
    has_prefix(encode_utf8(name), encode_utf8("__MACOSX/"@))
        || name_has_suffix(name, ".DS_Store"@)
}

/// A name that ends in one of the image extensions.
pub open spec fn is_image_name(name: Seq<char>) -> bool {
    name_has_suffix(name, "png"@) || name_has_suffix(name, "jpg"@)
        || name_has_suffix(name, "jpeg"@) || name_has_suffix(name, "gif"@)
        || name_has_suffix(name, "bmp"@) || name_has_suffix(name, "webp"@)
        || name_has_suffix(name, "tiff"@) || name_has_suffix(name, "svg"@)
}

fn bytes_start_with(s: &[u8], p: &[u8]) -> (r: bool)
    ensures
        r == has_prefix(s@, p@),
{
    if p.len() > s.len() {
        return false;
    }
    let mut i: usize = 0;
    while i < p.len()
        invariant
            p@.len() <= s@.len(),
            i <= p@.len(),
            forall|k: int| 0 <= k < i ==> s@[k] == p@[k],
        decreases p.len() - i,
    {
        if s[i] != p[i] {
            assert(s@.subrange(0, p@.len() as int)[i as int] != p@[i as int]);
            return false;
        }
        i = i + 1;
    }
    assert(s@.subrange(0, p@.len() as int) =~= p@);
    true
}

fn bytes_end_with(s: &[u8], p: &[u8]) -> (r: bool)
    ensures
        r == has_suffix(s@, p@),
{
    if p.len() > s.len() {
        return false;
    }
    let off: usize = s.len() - p.len();
    let mut i: usize = 0;
    while i < p.len()
        invariant
            p@.len() <= s@.len(),
            off == s@.len() - p@.len(),
            s@.len() == s.len(),
            i <= p@.len(),
            forall|k: int| 0 <= k < i ==> s@[off + k] == p@[k],
        decreases p.len() - i,
    {
        if s[off + i] != p[i] {
            assert(s@.subrange(off as int, s@.len() as int)[i as int] != p@[i as int]);
            return false;
        }
        i = i + 1;
    }
    assert(s@.subrange(off as int, s@.len() as int) =~= p@);
    true
}

/// Whether two names are the same text.
pub fn same_name(a: &str, b: &str) -> (r: bool)
    ensures
        r == (a@ == b@),
{
    let x = a.as_bytes();
    let y = b.as_bytes();
    proof {
        encode_utf8_decode_utf8(a@);
        encode_utf8_decode_utf8(b@);
    }
    assert(x@ == encode_utf8(a@) && y@ == encode_utf8(b@));
    if x.len() != y.len() {
        return false;
    }
    let mut i: usize = 0;
    while i < x.len()
        invariant
            x@ == encode_utf8(a@) && y@ == encode_utf8(b@),
            x@.len() == y@.len(),
            i <= x@.len(),
            forall|k: int| 0 <= k < i ==> x@[k] == y@[k],
        decreases x.len() - i,
    {
        if x[i] != y[i] {
            assert(x@[i as int] != y@[i as int]);
            assert(x@ != y@);
            return false;
        }
        i = i + 1;
    }
    assert(x@ =~= y@);
    true
}

fn name_ends_with(name: &str, suffix: &str) -> (r: bool)
    ensures
        r == name_has_suffix(name@, suffix@),
{
    bytes_end_with(name.as_bytes(), suffix.as_bytes())
}

/// Whether an entry is clutter that the comparison skips.
pub fn is_junk(name: &str) -> (r: bool)
    ensures
        r == is_junk_name(name@),
{
    bytes_start_with(name.as_bytes(), "__MACOSX/".as_bytes()) || name_ends_with(name, ".DS_Store")
}

/// Whether an entry is compared as an image, without reading its content.
pub fn is_image(name: &str) -> (r: bool)
    ensures
        r == is_image_name(name@),
{
    name_ends_with(name, "png") || name_ends_with(name, "jpg") || name_ends_with(name, "jpeg")
        || name_ends_with(name, "gif") || name_ends_with(name, "bmp")
        || name_ends_with(name, "webp") || name_ends_with(name, "tiff")
        || name_ends_with(name, "svg")
}

} // verus!
