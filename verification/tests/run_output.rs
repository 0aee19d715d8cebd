use annotate_output::record::{dec_i32, finish_banner, join_argv, start_banner, Tag};
use annotate_output::session::{Phase, Session};
use annotate_output::wait::{wait_step, WaitDecision, WaitEvent};

#[test]
fn decimal_rendering_exact() {
    assert_eq!(dec_i32(0), b"0".to_vec());
    assert_eq!(dec_i32(3), b"3".to_vec());
    assert_eq!(dec_i32(42), b"42".to_vec());
    assert_eq!(dec_i32(100), b"100".to_vec());
    assert_eq!(dec_i32(-5), b"-5".to_vec());
    assert_eq!(dec_i32(2147483647), b"2147483647".to_vec());
    assert_eq!(dec_i32(-2147483648), b"-2147483648".to_vec());
}

#[test]
fn join_argv_exact() {
    let argv = vec![b"echo".to_vec(), b"a b".to_vec(), b"c".to_vec()];
    assert_eq!(join_argv(&argv), b"echo a b c".to_vec());
    assert_eq!(join_argv(&vec![b"true".to_vec()]), b"true".to_vec());
    assert_eq!(join_argv(&Vec::new()), Vec::<u8>::new());
}

#[test]
fn start_banner_exact() {
    let ts = b"10:11:12".to_vec();
    let argv = vec![b"echo".to_vec(), b"hi".to_vec()];
    assert_eq!(start_banner(&ts, &argv), b"10:11:12 I: Started echo hi\n".to_vec());
}

#[test]
fn finish_banner_exact() {
    let ts = b"10:11:12".to_vec();
    assert_eq!(finish_banner(&ts, 0), b"10:11:12 I: Finished with exitcode 0\n".to_vec());
    assert_eq!(finish_banner(&ts, 3), b"10:11:12 I: Finished with exitcode 3\n".to_vec());
    assert_eq!(finish_banner(&ts, -11), b"10:11:12 I: Finished with exitcode -11\n".to_vec());
}

#[test]
fn wait_decisions() {
    assert_eq!(wait_step(WaitEvent::Exited { code: 0 }), WaitDecision::Finished { code: 0 });
    assert_eq!(wait_step(WaitEvent::Exited { code: 3 }), WaitDecision::Finished { code: 3 });
    assert_eq!(wait_step(WaitEvent::OtherStatus), WaitDecision::Retry);
    assert_eq!(wait_step(WaitEvent::Interrupted), WaitDecision::Retry);
    assert_eq!(wait_step(WaitEvent::Failed), WaitDecision::Fail);
}

#[test]
fn silent_run_yields_banners_only() {
    let argv = vec![b"true".to_vec()];
    let (mut s, start) = Session::begin(Vec::new(), &argv);
    assert!(start.ends_with(b" I: Started true\n"));
    s.note_exit(0);
    s.mark_eof(Tag::Stdout);
    s.mark_eof(Tag::Stderr);
    let finish = s.finish();
    assert!(finish.ends_with(b" I: Finished with exitcode 0\n"));
    assert_eq!(s.current_phase(), Phase::Done);
}

#[test]
fn session_run_with_lines() {
    let argv = vec![b"sh".to_vec(), b"-c".to_vec(), b"demo".to_vec()];
    let (mut s, start) = Session::begin(b"%H".to_vec(), &argv);
    assert!(start.ends_with(b" I: Started sh -c demo\n"));
    let r1 = s.child_record(Tag::Stdout, &b"one\n".to_vec());
    assert!(r1.ends_with(b" O: one\n"));
    s.note_exit(3);
    let r2 = s.child_record(Tag::Stderr, &b"two".to_vec());
    assert!(r2.ends_with(b" E: two\n"));
    s.mark_eof(Tag::Stdout);
    s.mark_eof(Tag::Stderr);
    assert!(s.is_stream_eof(Tag::Stdout));
    assert!(s.is_stream_eof(Tag::Stderr));
    let fin = s.finish();
    assert!(fin.ends_with(b" I: Finished with exitcode 3\n"));
}

#[test]
fn session_timestamp_uses_pattern_literals() {
    let argv = vec![b"true".to_vec()];
    let (s, start) = Session::begin(b"TS".to_vec(), &argv);
    assert_eq!(start, b"TS I: Started true\n".to_vec());
    assert_eq!(s.current_phase(), Phase::Running);
}
