//! Reading archives: the catalog of entry names and content digests, and the
//! text of one named entry.
use crate::names::{is_junk, is_junk_name, same_name};
use crate::outside::{
    decode_text, fx_digest, fx_hash, zip_entry_count, zip_entry_data, zip_entry_name, zip_opens,
    Archive,
};
use vstd::prelude::*;
use vstd::utf8::{decode_utf8, valid_utf8};

verus! {

/// A failure that aborts a whole comparison.
#[derive(Debug, Clone, Copy, PartialEq, Eq, Structural)]
pub enum CompareError {
    /// The bytes are not an archive that can be opened.
    OpenError,
    /// An entry of the archive cannot be opened or decompressed.
    CatalogReadError,
}

/// A failure to read the text of one entry.
#[derive(Debug, Clone, Copy, PartialEq, Eq, Structural)]
pub enum ExtractError {
    OpenFailed,
    NotFound,
    ReadFailed,
    NotUtf8,
}

/// One catalog line: an entry name and the digest of its content.
pub struct CatalogEntry {
    pub name: String,
    pub digest: u64,
}

/// The entries of one archive, junk left out, each name once.
pub struct Catalog {
    pub entries: Vec<CatalogEntry>,
}

pub open spec fn entry_view(e: CatalogEntry) -> (Seq<char>, u64) {
    (e.name@, e.digest)
}

pub open spec fn names_distinct(s: Seq<(Seq<char>, u64)>) -> bool {
    forall|i: int, j: int| 0 <= i < s.len() && 0 <= j < s.len() && i != j ==> s[i].0 != s[j].0
}

pub open spec fn seq_has_name(s: Seq<(Seq<char>, u64)>, n: Seq<char>) -> bool {
    exists|k: int| 0 <= k < s.len() && (#[trigger] s[k]).0 == n
}

/// The map from names to digests that a list of distinct names describes.
pub open spec fn lines_map(s: Seq<(Seq<char>, u64)>) -> Map<Seq<char>, u64> {
    Map::new(
        |n: Seq<char>| seq_has_name(s, n),
        |n: Seq<char>| s[choose|k: int| 0 <= k < s.len() && (#[trigger] s[k]).0 == n].1,
    )
}

/// The catalog of the first `n` entries, or `None` where one of them cannot
/// be read. Junk entries are skipped before their content is read; a later
/// entry of the same name replaces an earlier one.
pub open spec fn catalog_upto(bytes: Seq<u8>, n: nat) -> Option<Map<Seq<char>, u64>>
    decreases n,
{
    if n == 0 {
        Some(Map::empty())
    } else {
        match catalog_upto(bytes, (n - 1) as nat) {
            None => None,
            Some(m) => match zip_entry_name(bytes, (n - 1) as nat) {
                None => None,
                Some(name) => if is_junk_name(name) {
                    Some(m)
                } else {
                    match zip_entry_data(bytes, (n - 1) as nat) {
                        None => None,
                        Some(d) => Some(m.insert(name, fx_hash(d))),
                    }
                },
            },
        }
    }
}

/// The catalog of the archive in `bytes`.
pub open spec fn catalog_of(bytes: Seq<u8>) -> Result<Map<Seq<char>, u64>, CompareError> {
    if !zip_opens(bytes) {
        Err(CompareError::OpenError)
    } else {
        match catalog_upto(bytes, zip_entry_count(bytes)) {
            None => Err(CompareError::CatalogReadError),
            Some(m) => Ok(m),
        }
    }
}

/// The content of the first entry at index `i` or later that is called
/// `name`; scanning stops at the first entry that cannot be opened.
pub open spec fn find_entry(bytes: Seq<u8>, name: Seq<char>, i: nat) -> Result<Seq<u8>, ExtractError>
    decreases zip_entry_count(bytes) - i,
{
    if i >= zip_entry_count(bytes) {
        Err(ExtractError::NotFound)
    } else {
        match zip_entry_name(bytes, i) {
            None => Err(ExtractError::ReadFailed),
            Some(n) => if n == name {
                match zip_entry_data(bytes, i) {
                    None => Err(ExtractError::ReadFailed),
                    Some(d) => Ok(d),
                }
            } else {
                find_entry(bytes, name, i + 1)
            },
        }
    }
}

/// The content of entry `name` of the archive in `bytes`.
pub open spec fn entry_bytes(bytes: Seq<u8>, name: Seq<char>) -> Result<Seq<u8>, ExtractError> {
    if !zip_opens(bytes) {
        Err(ExtractError::OpenFailed)
    } else {
        find_entry(bytes, name, 0)
    }
}

/// The text of entry `name` of the archive in `bytes`.
pub open spec fn entry_text(bytes: Seq<u8>, name: Seq<char>) -> Result<Seq<char>, ExtractError> {
    match entry_bytes(bytes, name) {
        Err(e) => Err(e),
        Ok(d) => if valid_utf8(d) {
            Ok(decode_utf8(d))
        } else {
            Err(ExtractError::NotUtf8)
        },
    }
}

impl Catalog {
    pub open spec fn lines(&self) -> Seq<(Seq<char>, u64)> {
        self.entries@.map_values(|e: CatalogEntry| entry_view(e))
    }

    pub open spec fn wf(&self) -> bool {
        names_distinct(self.lines())
    }

    pub open spec fn view(&self) -> Map<Seq<char>, u64> {
        lines_map(self.lines())
    }

    pub fn new() -> (r: Catalog)
        ensures
            r.wf(),
            r.view() == Map::<Seq<char>, u64>::empty(),
    {
        let r = Catalog { entries: Vec::new() };
        assert(r.view() =~= Map::<Seq<char>, u64>::empty());
        r
    }

    /// The position of `name` in the catalog.
    pub fn position(&self, name: &str) -> (r: Option<usize>)
        requires
            self.wf(),
        ensures
            r is None <==> !self.view().contains_key(name@),
            r matches Some(k) ==> k < self.entries@.len() && self.entries@[k as int].name@ == name@
                && self.view()[name@] == self.entries@[k as int].digest,
    {
        let mut i: usize = 0;
        while i < self.entries.len()
            invariant
                self.wf(),
                i <= self.entries@.len(),
                forall|k: int| 0 <= k < i ==> (#[trigger] self.entries@[k]).name@ != name@,
            decreases self.entries.len() - i,
        {
            if same_name(self.entries[i].name.as_str(), name) {
                let ghost s = self.lines();
                assert(s[i as int].0 == name@);
                assert(seq_has_name(s, name@));
                return Some(i);
            }
            i = i + 1;
        }
        proof {
            let s = self.lines();
            if seq_has_name(s, name@) {
                let k = choose|k: int| 0 <= k < s.len() && (#[trigger] s[k]).0 == name@;
                assert(self.entries@[k].name@ == name@);
            }
        }
        None
    }

    /// Sets the digest of `name`, adding the name where it is new.
    pub fn insert(&mut self, name: String, digest: u64)
        requires
            old(self).wf(),
        ensures
            final(self).wf(),
            final(self).view() == old(self).view().insert(name@, digest),
    {
        let ghost s0 = self.lines();
        let ghost m0 = old(self).view();
        let pos = self.position(name.as_str());
        match pos {
            Some(k) => {
                self.entries.set(k, CatalogEntry { name, digest });
            },
            None => {
                self.entries.push(CatalogEntry { name, digest });
            },
        }
        proof {
            let s1 = self.lines();
            let k: int = match pos {
                Some(k) => k as int,
                None => s0.len() as int,
            };
            if pos is Some {
                assert(s0[k] == entry_view(old(self).entries@[k]));
                assert(s1 =~= s0.update(k, (name@, digest)));
            } else {
                assert(s1 =~= s0.push((name@, digest)));
            }
            assert forall|j: int| 0 <= j < s0.len() && j != k implies (#[trigger] s0[j]).0 != name@ by {
                if pos is None {
                    if s0[j].0 == name@ {
                        assert(seq_has_name(s0, name@));
                    }
                }
            }
            assert(names_distinct(s1));
            let m1 = m0.insert(name@, digest);
            lemma_lines_map_at(s1, k);
            assert forall|n: Seq<char>| #[trigger] m1.contains_key(n) implies lines_map(s1).contains_key(n)
                && lines_map(s1)[n] == m1[n] by {
                if n != name@ {
                    let j = choose|j: int| 0 <= j < s0.len() && (#[trigger] s0[j]).0 == n;
                    lemma_lines_map_at(s0, j);
                    assert(s1[j] == s0[j]);
                    lemma_lines_map_at(s1, j);
                }
            }
            assert forall|n: Seq<char>| #[trigger] lines_map(s1).contains_key(n) implies m1.contains_key(n) by {
                let j = choose|j: int| 0 <= j < s1.len() && (#[trigger] s1[j]).0 == n;
                if j != k {
                    assert(s0[j] == s1[j]);
                    lemma_lines_map_at(s0, j);
                }
            }
            assert(lines_map(s1) =~= m1);
        }
    }
}

/// A line of a catalog with distinct names is what the catalog maps its name to.
pub proof fn lemma_lines_map_at(s: Seq<(Seq<char>, u64)>, k: int)
    requires
        names_distinct(s),
        0 <= k < s.len(),
    ensures
        lines_map(s).contains_key(s[k].0),
        lines_map(s)[s[k].0] == s[k].1,
{
    assert(seq_has_name(s, s[k].0));
    let j = choose|j: int| 0 <= j < s.len() && (#[trigger] s[j]).0 == s[k].0;
    assert(j == k);
}

/// Builds the catalog of an archive: each entry that is not junk, with the
/// digest of its content.
pub fn extract_filenames_and_hashes(zip: &[u8]) -> (r: Result<Catalog, CompareError>)
    ensures
        match r {
            Ok(c) => c.wf() && catalog_of(zip@) == Ok::<_, CompareError>(c.view()),
            Err(e) => catalog_of(zip@) == Err::<Map<Seq<char>, u64>, _>(e),
        },
{
    let mut archive = match Archive::open(zip) {
        Ok(a) => a,
        Err(_) => return Err(CompareError::OpenError),
    };
    let n = archive.len();
    let mut files = Catalog::new();
    let mut i: usize = 0;
    while i < n
        invariant
            archive@ == zip@,
            n == zip_entry_count(zip@),
            zip_opens(zip@),
            i <= n,
            files.wf(),
            catalog_upto(zip@, i as nat) == Some(files.view()),
        decreases n - i,
    {
        let name = match archive.entry_name(i) {
            Ok(name) => name,
            Err(_) => {
                assert(catalog_upto(zip@, (i + 1) as nat) is None);
                assert(catalog_upto(zip@, n as nat) is None) by {
                    lemma_catalog_stays_failed(zip@, (i + 1) as nat, n as nat);
                }
                return Err(CompareError::CatalogReadError);
            },
        };
        if !is_junk(name.as_str()) {
            let data = match archive.entry_data(i) {
                Ok(d) => d,
                Err(_) => {
                    assert(catalog_upto(zip@, (i + 1) as nat) is None);
                    assert(catalog_upto(zip@, n as nat) is None) by {
                        lemma_catalog_stays_failed(zip@, (i + 1) as nat, n as nat);
                    }
                    return Err(CompareError::CatalogReadError);
                },
            };
            let digest = fx_digest(data.as_slice());
            files.insert(name, digest);
        }
        i = i + 1;
    }
    Ok(files)
}

/// Once an entry cannot be read, no longer prefix of the archive has a catalog.
proof fn lemma_catalog_stays_failed(bytes: Seq<u8>, i: nat, n: nat)
    requires
        i <= n,
        catalog_upto(bytes, i) is None,
    ensures
        catalog_upto(bytes, n) is None,
    decreases n - i,
{
    if i < n {
        lemma_catalog_stays_failed(bytes, i + 1, n);
    }
}

/// Reads the content of entry `filename`, opening the archive anew.
pub fn extract_file_bytes(zip: &[u8], filename: &str) -> (r: Result<Vec<u8>, ExtractError>)
    ensures
        match r {
            Ok(d) => entry_bytes(zip@, filename@) == Ok::<_, ExtractError>(d@),
            Err(e) => entry_bytes(zip@, filename@) == Err::<Seq<u8>, _>(e),
        },
{
    let mut archive = match Archive::open(zip) {
        Ok(a) => a,
        Err(_) => return Err(ExtractError::OpenFailed),
    };
    let n = archive.len();
    let mut i: usize = 0;
    while i < n
        invariant
            archive@ == zip@,
            n == zip_entry_count(zip@),
            zip_opens(zip@),
            i <= n,
            find_entry(zip@, filename@, 0) == find_entry(zip@, filename@, i as nat),
        decreases n - i,
    {
        let name = match archive.entry_name(i) {
            Ok(name) => name,
            Err(_) => return Err(ExtractError::ReadFailed),
        };
        if same_name(name.as_str(), filename) {
            return match archive.entry_data(i) {
                Ok(d) => Ok(d),
                Err(_) => Err(ExtractError::ReadFailed),
            };
        }
        i = i + 1;
    }
    Err(ExtractError::NotFound)
}

/// Reads the text of entry `filename`, opening the archive anew.
pub fn extract_file_content(zip: &[u8], filename: &str) -> (r: Result<String, ExtractError>)
    ensures
        match r {
            Ok(s) => entry_text(zip@, filename@) == Ok::<_, ExtractError>(s@),
            Err(e) => entry_text(zip@, filename@) == Err::<Seq<char>, _>(e),
        },
{
    let data = match extract_file_bytes(zip, filename) {
        Ok(d) => d,
        Err(e) => return Err(e),
    };
    match decode_text(data.as_slice()) {
        Some(text) => Ok(text),
        None => Err(ExtractError::NotUtf8),
    }
}

} // verus!
