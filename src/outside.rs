//! The calls this library makes into the zip, rustc-hash and diff crates and
//! into std's UTF-8 decoding, each with the contract the rest of the crate
//! relies on.
use std::io::Cursor;
use std::io::Read;
use vstd::prelude::*;
use vstd::utf8::{decode_utf8, valid_utf8};
use zip::read::ZipArchive;
use zip::result::ZipError;

verus! {

#[verifier::external_type_specification]
#[verifier::external_body]
#[verifier::reject_recursive_types(T)]
pub struct ExCursor<T>(Cursor<T>);

#[verifier::external_type_specification]
#[verifier::external_body]
#[verifier::reject_recursive_types(R)]
pub struct ExZipArchive<R>(ZipArchive<R>);

#[verifier::external_type_specification]
#[verifier::external_body]
pub struct ExZipError(ZipError);

/// Whether the zip crate accepts these bytes as an archive.
pub uninterp spec fn zip_opens(bytes: Seq<u8>) -> bool;

/// The number of entries in the central directory of the archive in these bytes.
pub uninterp spec fn zip_entry_count(bytes: Seq<u8>) -> nat;

/// The name of entry `i`, or `None` where the zip crate cannot open that entry.
pub uninterp spec fn zip_entry_name(bytes: Seq<u8>, i: nat) -> Option<Seq<char>>;

/// The decompressed content of entry `i`, or `None` where it cannot be read.
pub uninterp spec fn zip_entry_data(bytes: Seq<u8>, i: nat) -> Option<Seq<u8>>;

/// The 64-bit FxHash digest of a byte sequence.
pub uninterp spec fn fx_hash(bytes: Seq<u8>) -> u64;

/// The line alignment computed by the diff crate: each item is a line of the
/// left text only `(Some, None)`, of the right text only `(None, Some)`, or a
/// line matched in both `(Some, Some)`.
pub uninterp spec fn line_alignment(left: Seq<char>, right: Seq<char>) -> Seq<(Option<Seq<char>>, Option<Seq<char>>)>;

/// An archive opened from bytes held in memory.
pub struct Archive {
    zip: ZipArchive<Cursor<Vec<u8>>>,
    bytes: Ghost<Seq<u8>>,
}

impl View for Archive {
    type V = Seq<u8>;

    /// The bytes the archive was opened from.
    closed spec fn view(&self) -> Seq<u8> {
        self.bytes@
    }
}

impl Archive {
    /// Relies on zip::ZipArchive::new: it reads the central directory of the
    /// archive, and fails where the bytes are not a zip archive.
    #[verifier::external_body]
    pub(crate) fn open(bytes: &[u8]) -> (r: Result<Archive, ZipError>)
        ensures
            r is Ok <==> zip_opens(bytes@),
            r matches Ok(a) ==> a@ == bytes@,
    {
        ZipArchive::new(Cursor::new(bytes.to_vec())).map(|zip| Archive { zip, bytes: Ghost(bytes@) })
    }

    /// Relies on zip::ZipArchive::len: the number of entries in the central directory.
    #[verifier::external_body]
    pub(crate) fn len(&self) -> (r: usize)
        ensures
            r == zip_entry_count(self@),
    {
        self.zip.len()
    }

    /// Relies on zip::ZipArchive::by_index and zip::read::ZipFile::name: opens
    /// entry `i` and hands back its name as stored in the archive.
    #[verifier::external_body]
    pub(crate) fn entry_name(&mut self, i: usize) -> (r: Result<String, ZipError>)
        requires
            i < zip_entry_count(old(self)@),
        ensures
            final(self)@ == old(self)@,
            r is Ok <==> zip_entry_name(old(self)@, i as nat) is Some,
            r matches Ok(n) ==> zip_entry_name(old(self)@, i as nat) == Some(n@),
    {
        self.zip.by_index(i).map(|f| f.name().to_string())
    }

    /// Relies on zip::ZipArchive::by_index and std::io::Read::read_to_end on
    /// the entry: the whole decompressed content of entry `i`.
    #[verifier::external_body]
    pub(crate) fn entry_data(&mut self, i: usize) -> (r: Result<Vec<u8>, ZipError>)
        requires
            i < zip_entry_count(old(self)@),
        ensures
            final(self)@ == old(self)@,
            r is Ok <==> zip_entry_data(old(self)@, i as nat) is Some,
            r matches Ok(d) ==> zip_entry_data(old(self)@, i as nat) == Some(d@),
    {
        let mut f = self.zip.by_index(i)?;
        let mut buffer = Vec::new();
        f.read_to_end(&mut buffer)?;
        Ok(buffer)
    }
}

/// Relies on rustc_hash::FxHasher (default, write, finish): the digest of
/// the bytes, which depends on the bytes alone.
#[verifier::external_body]
pub(crate) fn fx_digest(bytes: &[u8]) -> (r: u64)
    ensures
        r == fx_hash(bytes@),
{
    let mut hasher = rustc_hash::FxHasher::default();
    std::hash::Hasher::write(&mut hasher, bytes);
    std::hash::Hasher::finish(&hasher)
}

/// Relies on std::str::from_utf8: succeeds exactly on valid UTF-8, and the
/// text is what the bytes encode.
#[verifier::external_body]
pub(crate) fn decode_text(bytes: &[u8]) -> (r: Option<String>)
    ensures
        r is Some <==> valid_utf8(bytes@),
        r matches Some(s) ==> s@ == decode_utf8(bytes@),
{
    std::str::from_utf8(bytes).ok().map(|s| s.to_string())
}

/// A line of a diff: the line of the left text, of the right text, or both.
pub struct AlignedLine {
    pub left: Option<String>,
    pub right: Option<String>,
}

pub open spec fn opt_view(o: Option<String>) -> Option<Seq<char>> {
    match o {
        Some(s) => Some(s@),
        None => None,
    }
}

pub open spec fn aligned_view(a: AlignedLine) -> (Option<Seq<char>>, Option<Seq<char>>) {
    (opt_view(a.left), opt_view(a.right))
}

/// Relies on diff::lines: the line-oriented alignment of two texts, each
/// item of diff::Result carried over as it is.
#[verifier::external_body]
pub(crate) fn align_lines(left: &str, right: &str) -> (r: Vec<AlignedLine>)
    ensures
        r@.map_values(|a: AlignedLine| aligned_view(a)) == line_alignment(left@, right@),
        forall|k: int| 0 <= k < r@.len() ==> (#[trigger] r@[k]).left is Some || r@[k].right is Some,
{
    diff::lines(left, right).into_iter().map(|d| match d {
        diff::Result::Left(l) => AlignedLine { left: Some(l.to_string()), right: None },
        diff::Result::Right(r) => AlignedLine { left: None, right: Some(r.to_string()) },
        diff::Result::Both(l, r) => AlignedLine { left: Some(l.to_string()), right: Some(r.to_string()) },
    }).collect()
}

} // verus!
