//! Deciding, for one entry name, what changed between the two archives, and
//! the line diff of a modified text entry.
use crate::catalog::{entry_bytes, extract_file_bytes, Catalog, ExtractError};
use crate::names::{is_image, is_image_name};
use crate::outside::{align_lines, aligned_view, decode_text, line_alignment, AlignedLine};
use vstd::prelude::*;
use vstd::utf8::{decode_utf8, valid_utf8};

verus! {

/// How an entry differs between the first archive and the second.
#[derive(Debug, Clone, Copy, PartialEq, Eq, Structural)]
pub enum Status {
    Added,
    Removed,
    Modified,
    ModifiedImage,
    ModifiedBinary,
    Unknown,
}

pub open spec fn status_label(s: Status) -> Seq<char> {
    match s {
        Status::Added => "Added"@,
        Status::Removed => "Removed"@,
        Status::Modified => "Modified"@,
        Status::ModifiedImage => "Modified (Image)"@,
        Status::ModifiedBinary => "Modified (Binary)"@,
        Status::Unknown => "Unknown"@,
    }
}

impl Status {
    /// The status as it is shown to users.
    pub fn label(&self) -> (r: String)
        ensures
            r@ == status_label(*self),
    {
        match self {
            Status::Added => "Added".to_owned(),
            Status::Removed => "Removed".to_owned(),
            Status::Modified => "Modified".to_owned(),
            Status::ModifiedImage => "Modified (Image)".to_owned(),
            Status::ModifiedBinary => "Modified (Binary)".to_owned(),
            Status::Unknown => "Unknown".to_owned(),
        }
    }
}

/// One entry that is not the same in both archives.
pub struct FileDifference {
    pub filename: String,
    pub status: Status,
    /// The changed lines of a modified text entry; `None` for every other status.
    pub content_diff: Option<Vec<String>>,
}

/// The mathematical value of a `FileDifference`.
pub struct DifferenceView {
    pub filename: Seq<char>,
    pub status: Status,
    pub content_diff: Option<Seq<Seq<char>>>,
}

pub open spec fn strings_view(v: Vec<String>) -> Seq<Seq<char>> {
    v@.map_values(|s: String| s@)
}

impl FileDifference {
    pub open spec fn view(&self) -> DifferenceView {
        DifferenceView {
            filename: self.filename@,
            status: self.status,
            content_diff: match self.content_diff {
                Some(v) => Some(strings_view(v)),
                None => None,
            },
        }
    }
}

/// An entry whose text could not be read from one archive or from both.
pub struct EntryFailure {
    pub filename: String,
    pub first: Option<ExtractError>,
    pub second: Option<ExtractError>,
}

/// What the comparison makes of one entry name.
pub enum EntryOutcome {
    Unchanged,
    Difference(FileDifference),
    Failure(EntryFailure),
}

/// The mathematical value of an `EntryOutcome`.
pub enum OutcomeView {
    Unchanged,
    Difference(DifferenceView),
    Failure(Seq<char>, Option<ExtractError>, Option<ExtractError>),
}

impl EntryOutcome {
    pub open spec fn view(&self) -> OutcomeView {
        match self {
            EntryOutcome::Unchanged => OutcomeView::Unchanged,
            EntryOutcome::Difference(d) => OutcomeView::Difference(d.view()),
            EntryOutcome::Failure(f) => OutcomeView::Failure(f.filename@, f.first, f.second),
        }
    }
}

/// The output line of one alignment item: removed lines get `- `, added
/// lines `+ `, matched lines are left out.
pub open spec fn diff_line(a: (Option<Seq<char>>, Option<Seq<char>>)) -> Seq<Seq<char>> {
    match a {
        (Some(l), None) => seq!["- "@ + l],
        (None, Some(r)) => seq!["+ "@ + r],
        _ => Seq::empty(),
    }
}

/// The output lines of an alignment, in its order.
pub open spec fn diff_report(al: Seq<(Option<Seq<char>>, Option<Seq<char>>)>) -> Seq<Seq<char>>
    decreases al.len(),
{
    if al.len() == 0 {
        Seq::empty()
    } else {
        diff_report(al.drop_last()) + diff_line(al.last())
    }
}

pub open spec fn has_nul(s: Seq<u8>) -> bool {
    exists|i: int| 0 <= i < s.len() && s[i] == 0
}

pub open spec fn difference(name: Seq<char>, status: Status) -> DifferenceView {
    DifferenceView { filename: name, status, content_diff: None }
}

/// The line diff of an entry whose two texts differ.
pub open spec fn text_difference(name: Seq<char>, t1: Seq<char>, t2: Seq<char>) -> DifferenceView {
    DifferenceView {
        filename: name,
        status: Status::Modified,
        content_diff: Some(diff_report(line_alignment(t1, t2))),
    }
}

/// What the comparison makes of an entry whose two contents differ: binary
/// where either holds a null byte; else a failure where either is not UTF-8;
/// else the line diff of the two texts.
pub open spec fn content_outcome(name: Seq<char>, b1: Seq<u8>, b2: Seq<u8>) -> OutcomeView {
    if has_nul(b1) || has_nul(b2) {
        OutcomeView::Difference(difference(name, Status::ModifiedBinary))
    } else if valid_utf8(b1) && valid_utf8(b2) {
        OutcomeView::Difference(text_difference(name, decode_utf8(b1), decode_utf8(b2)))
    } else {
        OutcomeView::Failure(
            name,
            if valid_utf8(b1) { None } else { Some(ExtractError::NotUtf8) },
            if valid_utf8(b2) { None } else { Some(ExtractError::NotUtf8) },
        )
    }
}

/// What the comparison makes of `name`, given both archives and their catalogs.
pub open spec fn entry_outcome(
    zip1: Seq<u8>,
    zip2: Seq<u8>,
    c1: Map<Seq<char>, u64>,
    c2: Map<Seq<char>, u64>,
    name: Seq<char>,
) -> OutcomeView {
    let in1 = c1.contains_key(name);
    let in2 = c2.contains_key(name);
    if in1 && !in2 {
        OutcomeView::Difference(difference(name, Status::Removed))
    } else if !in1 && in2 {
        OutcomeView::Difference(difference(name, Status::Added))
    } else if in1 && in2 {
        if c1[name] == c2[name] {
            OutcomeView::Unchanged
        } else if is_image_name(name) {
            OutcomeView::Difference(difference(name, Status::ModifiedImage))
        } else {
            match (entry_bytes(zip1, name), entry_bytes(zip2, name)) {
                (Ok(b1), Ok(b2)) => content_outcome(name, b1, b2),
                (Err(e1), Err(e2)) => OutcomeView::Failure(name, Some(e1), Some(e2)),
                (Err(e1), Ok(_)) => OutcomeView::Failure(name, Some(e1), None),
                (Ok(_), Err(e2)) => OutcomeView::Failure(name, None, Some(e2)),
            }
        }
    } else {
        OutcomeView::Difference(difference(name, Status::Unknown))
    }
}

fn contains_nul(s: &[u8]) -> (r: bool)
    ensures
        r == has_nul(s@),
{
    let mut i: usize = 0;
    while i < s.len()
        invariant
            i <= s@.len(),
            forall|k: int| 0 <= k < i ==> s@[k] != 0,
        decreases s.len() - i,
    {
        if s[i] == 0 {
            return true;
        }
        i = i + 1;
    }
    false
}

fn prefixed(prefix: &str, line: &String) -> (r: String)
    ensures
        r@ == prefix@ + line@,
{
    let mut s = prefix.to_owned();
    s.append(line.as_str());
    s
}

/// The changed lines of an alignment, each with its `- ` or `+ ` mark.
pub fn report_lines(aligned: &Vec<AlignedLine>) -> (r: Vec<String>)
    ensures
        strings_view(r) == diff_report(aligned@.map_values(|a: AlignedLine| aligned_view(a))),
{
    let ghost al = aligned@.map_values(|a: AlignedLine| aligned_view(a));
    let mut out: Vec<String> = Vec::new();
    let mut i: usize = 0;
    while i < aligned.len()
        invariant
            al == aligned@.map_values(|a: AlignedLine| aligned_view(a)),
            i <= aligned@.len(),
            strings_view(out) == diff_report(al.take(i as int)),
        decreases aligned.len() - i,
    {
        assert(al.take(i as int + 1).drop_last() =~= al.take(i as int));
        assert(al.take(i as int + 1).last() == aligned_view(aligned@[i as int]));
        let item = &aligned[i];
        match (&item.left, &item.right) {
            (Some(l), None) => {
                out.push(prefixed("- ", l));
            },
            (None, Some(r)) => {
                out.push(prefixed("+ ", r));
            },
            _ => {},
        }
        assert(strings_view(out) =~= diff_report(al.take(i as int + 1)));
        i = i + 1;
    }
    assert(al.take(aligned@.len() as int) =~= al);
    out
}

/// The line diff of an entry whose two texts differ.
pub fn diff_texts(filename: &str, text1: &String, text2: &String) -> (r: FileDifference)
    ensures
        r.view() == text_difference(filename@, text1@, text2@),
{
    let aligned = align_lines(text1.as_str(), text2.as_str());
    let lines = report_lines(&aligned);
    FileDifference { filename: filename.to_owned(), status: Status::Modified, content_diff: Some(lines) }
}

/// Compares the two contents of an entry that changed: the null-byte test
/// comes first, UTF-8 decoding after it.
pub fn compare_contents(filename: &str, data1: &Vec<u8>, data2: &Vec<u8>) -> (r: EntryOutcome)
    ensures
        r.view() == content_outcome(filename@, data1@, data2@),
{
    if contains_nul(data1.as_slice()) || contains_nul(data2.as_slice()) {
        return plain_difference(filename, Status::ModifiedBinary);
    }
    match (decode_text(data1.as_slice()), decode_text(data2.as_slice())) {
        (Some(t1), Some(t2)) => EntryOutcome::Difference(diff_texts(filename, &t1, &t2)),
        (None, Some(_)) => EntryOutcome::Failure(
            EntryFailure { filename: filename.to_owned(), first: Some(ExtractError::NotUtf8), second: None },
        ),
        (Some(_), None) => EntryOutcome::Failure(
            EntryFailure { filename: filename.to_owned(), first: None, second: Some(ExtractError::NotUtf8) },
        ),
        (None, None) => EntryOutcome::Failure(
            EntryFailure {
                filename: filename.to_owned(),
                first: Some(ExtractError::NotUtf8),
                second: Some(ExtractError::NotUtf8),
            },
        ),
    }
}

fn plain_difference(filename: &str, status: Status) -> (r: EntryOutcome)
    ensures
        r.view() == OutcomeView::Difference(difference(filename@, status)),
{
    EntryOutcome::Difference(FileDifference { filename: filename.to_owned(), status, content_diff: None })
}

/// Classifies one entry name of either catalog: added, removed, unchanged,
/// modified (image, binary or text), or unreadable.
/// Both contents are read before either is tested for a null byte.
pub fn classify_entry(
    zip1: &[u8],
    zip2: &[u8],
    files1: &Catalog,
    files2: &Catalog,
    filename: &str,
) -> (r: EntryOutcome)
    requires
        files1.wf(),
        files2.wf(),
    ensures
        r.view() == entry_outcome(zip1@, zip2@, files1.view(), files2.view(), filename@),
{
    let p1 = files1.position(filename);
    let p2 = files2.position(filename);
    match (p1, p2) {
        (Some(_), None) => plain_difference(filename, Status::Removed),
        (None, Some(_)) => plain_difference(filename, Status::Added),
        (Some(k1), Some(k2)) => {
            if files1.entries[k1].digest == files2.entries[k2].digest {
                return EntryOutcome::Unchanged;
            }
            if is_image(filename) {
                return plain_difference(filename, Status::ModifiedImage);
            }
            match (extract_file_bytes(zip1, filename), extract_file_bytes(zip2, filename)) {
                (Ok(d1), Ok(d2)) => compare_contents(filename, &d1, &d2),
                (Err(e1), Err(e2)) => EntryOutcome::Failure(
                    EntryFailure { filename: filename.to_owned(), first: Some(e1), second: Some(e2) },
                ),
                (Err(e1), Ok(_)) => EntryOutcome::Failure(
                    EntryFailure { filename: filename.to_owned(), first: Some(e1), second: None },
                ),
                (Ok(_), Err(e2)) => EntryOutcome::Failure(
                    EntryFailure { filename: filename.to_owned(), first: None, second: Some(e2) },
                ),
            }
        },
        _ => plain_difference(filename, Status::Unknown),
    }
}

} // verus!
