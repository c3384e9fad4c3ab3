use std::io::{Cursor, Write};
use zip::write::SimpleFileOptions;
use zip::CompressionMethod;
use zip_compare::{
    classify_entry, compare_contents, compare_zip_files, extract_file_bytes, extract_file_content, extract_filenames_and_hashes, gather,
    plan_comparison, CompareError, Comparison, EntryOutcome, ExtractError, FileDifference, Status,
};

fn archive_with(entries: &[(&str, &[u8])], method: CompressionMethod) -> Vec<u8> {
    let mut w = zip::ZipWriter::new(Cursor::new(Vec::new()));
    let options = SimpleFileOptions::default().compression_method(method);
    for (name, data) in entries {
        w.start_file(*name, options).unwrap();
        w.write_all(data).unwrap();
    }
    w.finish().unwrap().into_inner()
}

fn archive(entries: &[(&str, &[u8])]) -> Vec<u8> {
    archive_with(entries, CompressionMethod::Stored)
}

fn compare(a: &[u8], b: &[u8]) -> Comparison {
    match compare_zip_files(a, b) {
        Ok(c) => c,
        Err(e) => panic!("comparison failed: {:?}", e),
    }
}

fn sorted(mut d: Vec<FileDifference>) -> Vec<FileDifference> {
    d.sort_by(|x, y| x.filename.cmp(&y.filename));
    d
}

#[test]
fn text_change_gives_line_diff() {
    let a = archive(&[("a.txt", b"line1\nline2")]);
    let b = archive(&[("a.txt", b"line1\nline3")]);
    let c = compare(&a, &b);
    assert_eq!(c.differences.len(), 1);
    let d = &c.differences[0];
    assert_eq!(d.filename, "a.txt");
    assert_eq!(d.status, Status::Modified);
    assert_eq!(d.content_diff, Some(vec!["- line2".to_string(), "+ line3".to_string()]));
    assert!(c.failures.is_empty());
}

#[test]
fn changed_png_is_modified_image() {
    let a = archive(&[("x.png", b"\x89PNG first")]);
    let b = archive(&[("x.png", b"\x89PNG second")]);
    let c = compare(&a, &b);
    assert_eq!(c.differences.len(), 1);
    assert_eq!(c.differences[0].filename, "x.png");
    assert_eq!(c.differences[0].status, Status::ModifiedImage);
    assert_eq!(c.differences[0].content_diff, None);
}

#[test]
fn added_and_removed_entries() {
    let a = archive(&[("a.txt", b"alpha"), ("b.txt", b"same")]);
    let b = archive(&[("b.txt", b"same"), ("c.txt", b"gamma")]);
    let d = sorted(compare(&a, &b).differences);
    assert_eq!(d.len(), 2);
    assert_eq!(d[0].filename, "a.txt");
    assert_eq!(d[0].status, Status::Removed);
    assert_eq!(d[0].content_diff, None);
    assert_eq!(d[1].filename, "c.txt");
    assert_eq!(d[1].status, Status::Added);
    assert_eq!(d[1].content_diff, None);
}

#[test]
fn identical_containers_short_circuit_even_when_not_archives() {
    let junk = b"this is not a zip archive".to_vec();
    let c = compare(&junk, &junk.clone());
    assert!(c.differences.is_empty());
    assert!(c.failures.is_empty());
}

#[test]
fn identical_archives_are_empty() {
    let a = archive(&[("a.txt", b"one"), ("b.bin", b"\0\x01")]);
    let c = compare(&a, &a.clone());
    assert!(c.differences.is_empty());
}

#[test]
fn same_entries_in_different_containers_are_empty() {
    let a = archive_with(&[("a.txt", b"one\ntwo"), ("b.txt", b"three")], CompressionMethod::Stored);
    let b = archive_with(&[("b.txt", b"three"), ("a.txt", b"one\ntwo")], CompressionMethod::Deflated);
    assert_ne!(a, b);
    let c = compare(&a, &b);
    assert!(c.differences.is_empty());
    assert!(c.failures.is_empty());
}

#[test]
fn image_extension_decides_whatever_the_content() {
    let a = archive(&[("notes.svg", b"plain text\nhere")]);
    let b = archive(&[("notes.svg", b"plain text\nthere")]);
    let c = compare(&a, &b);
    assert_eq!(c.differences.len(), 1);
    assert_eq!(c.differences[0].status, Status::ModifiedImage);
    assert_eq!(c.differences[0].content_diff, None);
}

#[test]
fn every_image_extension_is_recognised() {
    for ext in ["png", "jpg", "jpeg", "gif", "bmp", "webp", "tiff", "svg"] {
        let name = format!("pic.{}", ext);
        let a = archive(&[(name.as_str(), b"one")]);
        let b = archive(&[(name.as_str(), b"two")]);
        let c = compare(&a, &b);
        assert_eq!(c.differences[0].status, Status::ModifiedImage, "{}", ext);
    }
}

#[test]
fn image_suffix_is_case_sensitive() {
    let a = archive(&[("PIC.PNG", b"one")]);
    let b = archive(&[("PIC.PNG", b"two")]);
    let c = compare(&a, &b);
    assert_eq!(c.differences[0].status, Status::Modified);
}

#[test]
fn text_diff_keeps_only_marked_changed_lines() {
    let a = archive(&[("t.txt", b"keep\nold1\nmiddle\nold2\nend")]);
    let b = archive(&[("t.txt", b"keep\nmiddle\nnew2\nend\nextra")]);
    let c = compare(&a, &b);
    let lines = c.differences[0].content_diff.clone().unwrap();
    assert_eq!(
        lines,
        vec!["- old1".to_string(), "- old2".to_string(), "+ new2".to_string(), "+ extra".to_string()]
    );
    for l in &lines {
        assert!(l.starts_with("- ") || l.starts_with("+ "));
        assert!(!l.contains("keep") && !l.contains("middle"));
    }
}

#[test]
fn null_byte_means_binary() {
    let a = archive(&[("data.dat", b"abc\0def")]);
    let b = archive(&[("data.dat", b"abc def")]);
    let c = compare(&a, &b);
    assert_eq!(c.differences.len(), 1);
    assert_eq!(c.differences[0].status, Status::ModifiedBinary);
    assert_eq!(c.differences[0].content_diff, None);
}

#[test]
fn junk_entries_never_reported() {
    let a = archive(&[("__MACOSX/._a.txt", b"fork"), ("dir/.DS_Store", b"x"), ("a.txt", b"same")]);
    let b = archive(&[(".DS_Store", b"y"), ("__MACOSX/other", b"z"), ("a.txt", b"same")]);
    let c = compare(&a, &b);
    assert!(c.differences.is_empty());
    assert!(c.failures.is_empty());
}

#[test]
fn names_are_not_case_folded() {
    let a = archive(&[("Read.me", b"x")]);
    let b = archive(&[("read.me", b"x")]);
    let d = sorted(compare(&a, &b).differences);
    assert_eq!(d.len(), 2);
    assert_eq!(d[0].filename, "Read.me");
    assert_eq!(d[0].status, Status::Removed);
    assert_eq!(d[1].filename, "read.me");
    assert_eq!(d[1].status, Status::Added);
}

#[test]
fn not_an_archive_is_open_error() {
    let a = b"not a zip".to_vec();
    let b = archive(&[("a.txt", b"x")]);
    assert_eq!(compare_zip_files(&a, &b).err(), Some(CompareError::OpenError));
    assert_eq!(compare_zip_files(&b, &a).err(), Some(CompareError::OpenError));
}

#[test]
fn corrupt_entry_is_catalog_read_error() {
    let good = archive(&[("a.txt", b"hello world")]);
    let mut bad = good.clone();
    let at = bad.windows(11).position(|w| w == b"hello world").unwrap();
    bad[at] = b'j';
    assert_eq!(compare_zip_files(&bad, &good).err(), Some(CompareError::CatalogReadError));
    assert_eq!(extract_filenames_and_hashes(&bad).err(), Some(CompareError::CatalogReadError));
}

#[test]
fn invalid_utf8_is_a_failure_not_a_difference() {
    let a = archive(&[("t.txt", b"\xff\xfe one")]);
    let b = archive(&[("t.txt", b"two")]);
    let c = compare(&a, &b);
    assert!(c.differences.is_empty());
    assert_eq!(c.failures.len(), 1);
    assert_eq!(c.failures[0].filename, "t.txt");
    assert_eq!(c.failures[0].first, Some(ExtractError::NotUtf8));
    assert_eq!(c.failures[0].second, None);
}

#[test]
fn both_sides_unreadable_is_recorded_as_such() {
    let a = archive(&[("t.txt", b"\xff one")]);
    let b = archive(&[("t.txt", b"\xff two")]);
    let c = compare(&a, &b);
    assert!(c.differences.is_empty());
    assert_eq!(c.failures[0].first, Some(ExtractError::NotUtf8));
    assert_eq!(c.failures[0].second, Some(ExtractError::NotUtf8));
}

#[test]
fn extraction_errors() {
    let a = archive(&[("a.txt", b"text")]);
    assert_eq!(extract_file_content(&a, "a.txt"), Ok("text".to_string()));
    assert_eq!(extract_file_content(&a, "b.txt"), Err(ExtractError::NotFound));
    assert_eq!(extract_file_content(b"nothing", "a.txt"), Err(ExtractError::OpenFailed));
}

#[test]
fn extraction_decodes_multibyte_text() {
    let a = archive_with(&[("u.txt", "grüße ✓".as_bytes())], CompressionMethod::Deflated);
    assert_eq!(extract_file_content(&a, "u.txt"), Ok("grüße ✓".to_string()));
}

#[test]
fn catalog_skips_junk_and_digests_content() {
    let a = archive(&[("a.txt", b"one"), ("b.txt", b"two"), ("c.txt", b"one"), ("__MACOSX/a", b"z")]);
    let cat = extract_filenames_and_hashes(&a).unwrap();
    let names: Vec<&str> = cat.entries.iter().map(|e| e.name.as_str()).collect();
    assert_eq!(names, vec!["a.txt", "b.txt", "c.txt"]);
    assert_ne!(cat.entries[0].digest, cat.entries[1].digest);
    assert_eq!(cat.entries[0].digest, cat.entries[2].digest);
}

#[test]
fn plan_then_classify_then_gather() {
    let a = archive(&[("a.txt", b"x\ny"), ("b.txt", b"same"), ("p.gif", b"1")]);
    let b = archive(&[("a.txt", b"x\nz"), ("b.txt", b"same"), ("p.gif", b"2"), ("n.txt", b"new")]);
    assert!(plan_comparison(&a, &a).unwrap().is_none());
    let plan = plan_comparison(&a, &b).unwrap().unwrap();
    let mut names: Vec<String> = plan.names.clone();
    names.sort();
    assert_eq!(names, vec!["a.txt", "b.txt", "n.txt", "p.gif"]);
    let outcomes: Vec<EntryOutcome> = plan
        .names
        .iter()
        .map(|n| classify_entry(&a, &b, &plan.files1, &plan.files2, n))
        .collect();
    let unchanged = outcomes.iter().filter(|o| matches!(o, EntryOutcome::Unchanged)).count();
    assert_eq!(unchanged, 1);
    let c = gather(outcomes);
    let d = sorted(c.differences);
    assert_eq!(d.len(), 3);
    assert_eq!(d[0].filename, "a.txt");
    assert_eq!(d[0].content_diff, Some(vec!["- y".to_string(), "+ z".to_string()]));
    assert_eq!(d[1].status, Status::Added);
    assert_eq!(d[2].status, Status::ModifiedImage);
}

#[test]
fn status_labels() {
    assert_eq!(Status::Added.label(), "Added");
    assert_eq!(Status::Removed.label(), "Removed");
    assert_eq!(Status::Modified.label(), "Modified");
    assert_eq!(Status::ModifiedImage.label(), "Modified (Image)");
    assert_eq!(Status::ModifiedBinary.label(), "Modified (Binary)");
    assert_eq!(Status::Unknown.label(), "Unknown");
}

#[test]
fn trailing_newline_is_part_of_the_diff() {
    let a = archive(&[("t.txt", b"one\n")]);
    let b = archive(&[("t.txt", b"one")]);
    let c = compare(&a, &b);
    assert_eq!(c.differences.len(), 1);
    assert_eq!(c.differences[0].status, Status::Modified);
}

#[test]
fn archive_against_itself_is_all_unchanged() {
    let a = archive(&[("a.txt", b"one"), ("b.png", b"two"), ("c.bin", b"\0")]);
    let cat = extract_filenames_and_hashes(&a).unwrap();
    for e in &cat.entries {
        let o = classify_entry(&a, &a, &cat, &cat, &e.name);
        assert!(matches!(o, EntryOutcome::Unchanged), "{}", e.name);
    }
}

#[test]
fn null_byte_wins_over_invalid_utf8() {
    let a = archive(&[("d.dat", b"\0\xff")]);
    let b = archive(&[("d.dat", b"x")]);
    let c = compare(&a, &b);
    assert_eq!(c.differences.len(), 1);
    assert_eq!(c.differences[0].filename, "d.dat");
    assert_eq!(c.differences[0].status, Status::ModifiedBinary);
    assert_eq!(c.differences[0].content_diff, None);
    assert!(c.failures.is_empty());
}

#[test]
fn null_byte_on_one_side_invalid_utf8_on_the_other() {
    let a = archive(&[("d.dat", b"a\0b")]);
    let b = archive(&[("d.dat", b"\xfe\xff")]);
    let c = compare(&a, &b);
    assert_eq!(c.differences.len(), 1);
    assert_eq!(c.differences[0].status, Status::ModifiedBinary);
    assert!(c.failures.is_empty());
}

#[test]
fn contents_are_tested_for_null_bytes_before_decoding() {
    let o = compare_contents("f", &b"\xff\0".to_vec(), &b"ok".to_vec());
    assert!(matches!(o, EntryOutcome::Difference(ref d) if d.status == Status::ModifiedBinary));
    let o = compare_contents("f", &b"\xff".to_vec(), &b"ok".to_vec());
    match o {
        EntryOutcome::Failure(f) => {
            assert_eq!(f.first, Some(ExtractError::NotUtf8));
            assert_eq!(f.second, None);
        }
        _ => panic!("expected a failure"),
    }
}

#[test]
fn raw_extraction_keeps_bytes() {
    let a = archive(&[("b.bin", b"\0\xff\x01")]);
    assert_eq!(extract_file_bytes(&a, "b.bin"), Ok(vec![0u8, 0xff, 1]));
    assert_eq!(extract_file_bytes(&a, "c.bin"), Err(ExtractError::NotFound));
    assert_eq!(extract_file_content(&a, "b.bin"), Err(ExtractError::NotUtf8));
}
