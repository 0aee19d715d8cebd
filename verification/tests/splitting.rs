use annotate_output::lines::LineSplitter;
use annotate_output::record::{make_record, Tag};

#[test]
fn splitter_reconstructs_stream() {
    let mut sp = LineSplitter::new();
    let data = b"abc\ndef\n\nghi".to_vec();
    let segs = sp.feed(&data);
    assert_eq!(segs.len(), 3);
    assert_eq!(segs[0], b"abc\n".to_vec());
    assert_eq!(segs[1], b"def\n".to_vec());
    assert_eq!(segs[2], b"\n".to_vec());
    let pending = sp.take_pending();
    assert_eq!(pending, Some(b"ghi".to_vec()));
    let mut all: Vec<u8> = Vec::new();
    for s in &segs {
        all.extend_from_slice(s);
    }
    all.extend_from_slice(b"ghi");
    assert_eq!(all, data);
}

#[test]
fn splitter_counts_segments() {
    let mut sp = LineSplitter::new();
    let data = b"one\ntwo\nthree\n".to_vec();
    let segs = sp.feed(&data);
    assert_eq!(segs.len(), 3);
    assert_eq!(sp.take_pending(), None);
}

#[test]
fn splitter_feeds_incrementally() {
    let mut sp = LineSplitter::new();
    let segs1 = sp.feed(&b"he".to_vec());
    assert!(segs1.is_empty());
    let segs2 = sp.feed(&b"llo\nwor".to_vec());
    assert_eq!(segs2, vec![b"hello\n".to_vec()]);
    let segs3 = sp.feed(&b"ld".to_vec());
    assert!(segs3.is_empty());
    assert_eq!(sp.take_pending(), Some(b"world".to_vec()));
    assert_eq!(sp.take_pending(), None);
}

#[test]
fn splitter_handles_empty_feed() {
    let mut sp = LineSplitter::new();
    let segs = sp.feed(&Vec::new());
    assert!(segs.is_empty());
    assert_eq!(sp.take_pending(), None);
}

#[test]
fn two_lines_without_trailing_newline() {
    let mut sp = LineSplitter::new();
    let mut segs = sp.feed(&b"hello\nworld".to_vec());
    if let Some(p) = sp.take_pending() {
        segs.push(p);
    }
    assert_eq!(segs.len(), 2);
    let ts = b"12:00:00".to_vec();
    let r1 = make_record(&ts, Tag::Stdout, &segs[0]);
    let r2 = make_record(&ts, Tag::Stdout, &segs[1]);
    assert_eq!(r1, b"12:00:00 O: hello\n".to_vec());
    assert_eq!(r2, b"12:00:00 O: world\n".to_vec());
}

#[test]
fn record_keeps_existing_newline() {
    let ts = b"09:08:07".to_vec();
    let r = make_record(&ts, Tag::Stderr, &b"oops\n".to_vec());
    assert_eq!(r, b"09:08:07 E: oops\n".to_vec());
}

#[test]
fn records_are_single_lines() {
    let ts = b"00:00:00".to_vec();
    let chunks = [b"alpha\n".to_vec(), b"beta".to_vec()];
    let tags = [Tag::Stdout, Tag::Stderr];
    for chunk in &chunks {
        for tag in &tags {
            let r = make_record(&ts, *tag, chunk);
            let newlines = r.iter().filter(|&&b| b == b'\n').count();
            assert_eq!(newlines, 1);
            assert_eq!(*r.last().unwrap(), b'\n');
        }
    }
}

#[test]
fn interleaved_streams_never_corrupt_records() {
    let ts = b"23:59:59".to_vec();
    let mut out_sp = LineSplitter::new();
    let mut err_sp = LineSplitter::new();
    let out_data = b"aaa\nbbb\nccc\n".to_vec();
    let err_data = b"xx\nyyyy\nzz\n".to_vec();
    let mut records: Vec<Vec<u8>> = Vec::new();
    for i in 0..out_data.len().max(err_data.len()) {
        if i < out_data.len() {
            for seg in out_sp.feed(&vec![out_data[i]]) {
                records.push(make_record(&ts, Tag::Stdout, &seg));
            }
        }
        if i < err_data.len() {
            for seg in err_sp.feed(&vec![err_data[i]]) {
                records.push(make_record(&ts, Tag::Stderr, &seg));
            }
        }
    }
    assert_eq!(records.len(), 6);
    for r in &records {
        assert!(r.starts_with(b"23:59:59 O: ") || r.starts_with(b"23:59:59 E: "));
        assert_eq!(r.iter().filter(|&&b| b == b'\n').count(), 1);
        assert_eq!(*r.last().unwrap(), b'\n');
    }
}
