use thumbnailer::scan::{advance, is_allowed, Completion, Op, Progress, Scan, ScanTask, SourceInfo, Stage, Step, Verdict, READ_LEN};

const DIR: &str = "/c/thumbnails/normal";
const REGULAR: u32 = 0o100644;

fn chunk(tag: &[u8], payload: &[u8]) -> Vec<u8> {
    let mut c = Vec::new();
    c.extend_from_slice(&(payload.len() as u32).to_be_bytes());
    c.extend_from_slice(tag);
    c.extend_from_slice(payload);
    c.extend_from_slice(&[0, 0, 0, 0]);
    c
}

fn thumbnail(secs: u64) -> Vec<u8> {
    let mut b = vec![0x89, b'P', b'N', b'G', 0x0d, 0x0a, 0x1a, 0x0a];
    b.extend(chunk(b"IHDR", &[0; 13]));
    b.extend(chunk(b"tEXt", format!("Thumb::MTime\0{}.250000", secs).as_bytes()));
    b.extend(chunk(b"IDAT", &[0u8; 40]));
    b
}

fn stat(mode: u32, secs: u64, abs: &str) -> Completion {
    Completion::Stat(Some(SourceInfo { mode, mtime_secs: secs, absolute: Some(abs.to_string()) }))
}

fn allow() -> Vec<String> {
    vec!["image/png".to_string(), "image/jpeg".to_string()]
}

fn submitted(p: Progress) -> Op {
    match p {
        Progress::Submit(op) => op,
        _ => panic!("expected an operation"),
    }
}

#[test]
fn missing_path_is_rejected() {
    let (mut scan, ops) = Scan::new(DIR.to_string(), vec![b"/nope".to_vec()]);
    assert!(matches!(&ops[0], Op::StatSource { path } if path == b"/nope"));
    assert_eq!(1, scan.pending());
    assert!(matches!(scan.complete(0, Completion::Stat(None)), Progress::Resolved(Verdict::Missing)));
    assert!(scan.is_done());
    let (uris, mimes) = scan.into_batch();
    assert!(uris.is_empty() && mimes.is_empty());
}

#[test]
fn directory_and_untextual_paths_are_rejected() {
    let (mut scan, _) = Scan::new(DIR.to_string(), vec![b"/d".to_vec(), b"/e".to_vec()]);
    assert!(matches!(scan.complete(0, stat(0o040755, 1, "/d")), Progress::Resolved(Verdict::NotRegular)));
    let no_text = Completion::Stat(Some(SourceInfo { mode: REGULAR, mtime_secs: 1, absolute: None }));
    assert!(matches!(scan.complete(1, no_text), Progress::Resolved(Verdict::NotText)));
    assert!(scan.is_done());
}

#[test]
fn file_without_thumbnail_is_accepted_once() {
    let (mut scan, _) = Scan::new(DIR.to_string(), vec![b"/p/cat pic.png".to_vec()]);
    let op = submitted(scan.complete(0, stat(REGULAR, 100, "/p/cat pic.png")));
    let expected = format!("{}/20ef9344390e48f0396287a6c8080e3d.png", DIR);
    assert!(matches!(&op, Op::OpenArtifact { artifact } if *artifact == expected));
    let op = submitted(scan.complete(0, Completion::Open(-2)));
    assert!(matches!(&op, Op::OpenSource { path } if path == b"/p/cat pic.png"));
    let op = submitted(scan.complete(0, Completion::Open(7)));
    assert!(matches!(op, Op::ReadSource { fd: 7, len: READ_LEN }));
    let bytes = match scan.complete(0, Completion::Read(vec![0x89, b'P', b'N', b'G'])) {
        Progress::Classify(b) => b,
        _ => panic!("expected classification"),
    };
    assert_eq!(vec![0x89, b'P', b'N', b'G'], bytes);
    assert_eq!(1, scan.pending());
    assert_eq!(Some(Verdict::Accepted), scan.classified(0, Some("image/png".to_string()), &allow()));
    assert_eq!(0, scan.pending());
    // Later feedback on the same token changes nothing.
    assert_eq!(None, scan.classified(0, Some("image/png".to_string()), &allow()));
    assert!(matches!(scan.complete(0, Completion::Open(3)), Progress::Stale));
    let (uris, mimes) = scan.into_batch();
    assert_eq!(vec!["file:///p/cat%20pic.png".to_string()], uris);
    assert_eq!(vec!["image/png".to_string()], mimes);
}

#[test]
fn fresh_thumbnail_skips_classification() {
    let (mut scan, _) = Scan::new(DIR.to_string(), vec![b"/p/a.png".to_vec()]);
    submitted(scan.complete(0, stat(REGULAR, 1664435861, "/p/a.png")));
    let op = submitted(scan.complete(0, Completion::Open(5)));
    assert!(matches!(op, Op::ReadArtifact { fd: 5, len: READ_LEN }));
    assert!(matches!(scan.complete(0, Completion::Read(thumbnail(1664435861))), Progress::Resolved(Verdict::Fresh)));
    assert!(scan.is_done());
    assert_eq!(None, scan.classified(0, Some("image/png".to_string()), &allow()));
}

#[test]
fn stale_thumbnail_reads_source() {
    let (mut scan, _) = Scan::new(DIR.to_string(), vec![b"/p/a.png".to_vec()]);
    submitted(scan.complete(0, stat(REGULAR, 1814435861, "/p/a.png")));
    submitted(scan.complete(0, Completion::Open(5)));
    let op = submitted(scan.complete(0, Completion::Read(thumbnail(1664435861))));
    assert!(matches!(&op, Op::OpenSource { path } if path == b"/p/a.png"));
    let op = submitted(scan.complete(0, Completion::Open(6)));
    assert!(matches!(op, Op::ReadSource { fd: 6, len: READ_LEN }));
    assert!(matches!(scan.complete(0, Completion::Read(Vec::new())), Progress::Resolved(Verdict::Unreadable)));
}

#[test]
fn empty_thumbnail_read_reads_source() {
    let (mut scan, _) = Scan::new(DIR.to_string(), vec![b"/p/a.png".to_vec()]);
    submitted(scan.complete(0, stat(REGULAR, 1, "/p/a.png")));
    submitted(scan.complete(0, Completion::Open(5)));
    let op = submitted(scan.complete(0, Completion::Read(Vec::new())));
    assert!(matches!(op, Op::OpenSource { .. }));
    assert!(matches!(scan.complete(0, Completion::Open(-13)), Progress::Resolved(Verdict::Unreadable)));
}

#[test]
fn unknown_and_unsupported_types_are_left_out() {
    let (mut scan, _) = Scan::new(DIR.to_string(), vec![b"/a".to_vec(), b"/b".to_vec()]);
    for t in 0..2usize {
        submitted(scan.complete(t, stat(REGULAR, 1, if t == 0 { "/a" } else { "/b" })));
        submitted(scan.complete(t, Completion::Open(-2)));
        submitted(scan.complete(t, Completion::Open(4)));
        assert!(matches!(scan.complete(t, Completion::Read(vec![1, 2, 3])), Progress::Classify(_)));
    }
    assert_eq!(Some(Verdict::Unknown), scan.classified(0, None, &allow()));
    assert_eq!(Some(Verdict::Unsupported), scan.classified(1, Some("text/plain".to_string()), &allow()));
    assert!(scan.is_done());
    assert!(scan.into_batch().0.is_empty());
}

#[test]
fn mixed_batch_accepts_exactly_the_eligible() {
    // 0 missing, 1 fresh, 2 stale and allowed, 3 no thumbnail and allowed,
    // 4 no thumbnail and not allowed, 5 a directory, 6 the same path as 3.
    let paths: Vec<Vec<u8>> = ["/m", "/f", "/s", "/n", "/t", "/d", "/n"].iter().map(|p| p.as_bytes().to_vec()).collect();
    let (mut scan, ops) = Scan::new(DIR.to_string(), paths);
    assert_eq!(7, ops.len());
    assert_eq!(7, scan.pending());
    assert!(matches!(scan.complete(0, Completion::Stat(None)), Progress::Resolved(Verdict::Missing)));
    assert!(matches!(scan.complete(5, stat(0o040755, 1, "/d")), Progress::Resolved(Verdict::NotRegular)));
    for (t, p, secs) in [(1usize, "/f", 50u64), (2, "/s", 60), (3, "/n", 70), (4, "/t", 80), (6, "/n", 70)] {
        submitted(scan.complete(t, stat(REGULAR, secs, p)));
    }
    // Completions come in any order.
    submitted(scan.complete(2, Completion::Open(12)));
    submitted(scan.complete(1, Completion::Open(11)));
    submitted(scan.complete(6, Completion::Open(-2)));
    submitted(scan.complete(3, Completion::Open(-2)));
    submitted(scan.complete(4, Completion::Open(-2)));
    assert!(matches!(scan.complete(1, Completion::Read(thumbnail(50))), Progress::Resolved(Verdict::Fresh)));
    submitted(scan.complete(2, Completion::Read(thumbnail(59))));
    for t in [2usize, 3, 4, 6] {
        submitted(scan.complete(t, Completion::Open(20)));
        assert!(matches!(scan.complete(t, Completion::Read(vec![9; 10])), Progress::Classify(_)));
    }
    assert_eq!(4, scan.pending());
    assert_eq!(Some(Verdict::Accepted), scan.classified(6, Some("image/jpeg".to_string()), &allow()));
    assert_eq!(Some(Verdict::Unsupported), scan.classified(4, Some("video/mp4".to_string()), &allow()));
    assert_eq!(Some(Verdict::Accepted), scan.classified(2, Some("image/png".to_string()), &allow()));
    assert!(!scan.is_done());
    assert_eq!(Some(Verdict::Accepted), scan.classified(3, Some("image/jpeg".to_string()), &allow()));
    assert!(scan.is_done());
    let (uris, mimes) = scan.into_batch();
    assert_eq!(vec!["file:///n".to_string(), "file:///s".to_string(), "file:///n".to_string()], uris);
    assert_eq!(vec!["image/jpeg".to_string(), "image/png".to_string(), "image/jpeg".to_string()], mimes);
}

#[test]
fn tracker_reaches_zero_once() {
    let (mut scan, _) = Scan::new(DIR.to_string(), vec![b"/a".to_vec(), b"/b".to_vec()]);
    assert!(matches!(scan.complete(0, Completion::Stat(None)), Progress::Resolved(_)));
    assert_eq!(1, scan.pending());
    assert!(matches!(scan.complete(0, Completion::Stat(None)), Progress::Stale));
    assert!(matches!(scan.complete(9, Completion::Stat(None)), Progress::Stale));
    assert_eq!(1, scan.pending());
    assert!(matches!(scan.complete(1, Completion::Stat(None)), Progress::Resolved(_)));
    assert_eq!(0, scan.pending());
    assert!(matches!(scan.complete(1, Completion::Stat(None)), Progress::Stale));
    assert_eq!(0, scan.pending());
    assert!(scan.is_done());
}

#[test]
fn empty_batch_is_done_at_once() {
    let (scan, ops) = Scan::new(DIR.to_string(), Vec::new());
    assert!(ops.is_empty());
    assert!(scan.is_done());
}

#[test]
fn mismatched_completion_counts_as_failure() {
    let task = ScanTask { source: b"/a".to_vec(), stage: Stage::StatSource };
    assert!(matches!(advance(task, Completion::Open(3), DIR), Step::Done(Verdict::Missing)));
    let task = ScanTask { source: b"/a".to_vec(), stage: Stage::OpenSource { uri: "file:///a".to_string() } };
    assert!(matches!(advance(task, Completion::Read(vec![1]), DIR), Step::Done(Verdict::Unreadable)));
}

#[test]
fn allow_list_membership() {
    assert!(is_allowed(&"image/png".to_string(), &allow()));
    assert!(!is_allowed(&"image/pn".to_string(), &allow()));
    assert!(!is_allowed(&"image/png".to_string(), &Vec::new()));
}
