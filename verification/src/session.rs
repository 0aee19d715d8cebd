//! Lifecycle sequencing of one run: start banner, annotated child lines,
//! finish banner.
//!
//! A `Session` is the single serializer for everything the wrapper prints.
//! Each call returns the bytes of one whole record for the caller to write
//! as one atomic unit, and a ghost log remembers every record handed out, in
//! order. The phase discipline makes the ordering guarantees theorems: the
//! start banner is handed out first and only once; the finish banner demands
//! that the child has exited and both streams have reached end-of-stream,
//! and it closes the session, so it is handed out last, carrying the exit
//! code captured when the child's termination became known.

use crate::bytes::views_of;
use crate::record::{
    finish_banner, finish_banner_bytes, make_record, record_bytes, start_banner,
    start_banner_bytes, tag_byte, Tag,
};
use vstd::prelude::*;

verus! {

/// Where a run stands.
#[derive(Clone, Copy, PartialEq, Eq, Structural, Debug)]
pub enum Phase {
    /// The child runs; its streams are being drained.
    Running,
    /// The child has exited; its exit code and a timestamp are captured,
    /// but the streams may still hold undrained output.
    Exited,
    /// The finish banner has been handed out; nothing more may be.
    Done,
}

/// One record handed out by a session, as the ghost log remembers it.
pub enum LogEntry {
    Start { ts: Seq<u8>, argv: Seq<Seq<u8>> },
    Child { ts: Seq<u8>, tag: Tag, chunk: Seq<u8> },
    Finish { ts: Seq<u8>, code: int },
}

/// The bytes a log entry was rendered to.
pub open spec fn rendered(e: LogEntry) -> Seq<u8> {
    match e {
        LogEntry::Start { ts, argv } => start_banner_bytes(ts, argv),
        LogEntry::Child { ts, tag, chunk } => record_bytes(ts, tag_byte(tag), chunk),
        LogEntry::Finish { ts, code } => finish_banner_bytes(ts, code),
    }
}

pub open spec fn is_start(e: LogEntry) -> bool {
    match e {
        LogEntry::Start { .. } => true,
        _ => false,
    }
}

pub open spec fn is_child(e: LogEntry) -> bool {
    match e {
        LogEntry::Child { .. } => true,
        _ => false,
    }
}

pub open spec fn is_finish(e: LogEntry) -> bool {
    match e {
        LogEntry::Finish { .. } => true,
        _ => false,
    }
}

pub open spec fn is_finish_with(e: LogEntry, code: int) -> bool {
    match e {
        LogEntry::Finish { code: c, .. } => c == code,
        _ => false,
    }
}

/// The serializer for one run's output.
pub struct Session {
    fmt: Vec<u8>,
    phase: Phase,
    exit_code: i32,
    exit_ts: Vec<u8>,
    out_eof: bool,
    err_eof: bool,
    history: Ghost<Seq<LogEntry>>,
}

impl Session {
    /// Every record handed out so far, oldest first.
    pub closed spec fn log(self) -> Seq<LogEntry> {
        self.history@
    }

    pub closed spec fn phase(self) -> Phase {
        self.phase
    }

    /// The child's exit code; meaningful once the phase has left `Running`.
    pub closed spec fn exit_code(self) -> i32 {
        self.exit_code
    }

    /// Whether a stream has been declared fully drained.
    pub closed spec fn stream_eof(self, tag: Tag) -> bool {
        match tag {
            Tag::Stdout => self.out_eof,
            Tag::Stderr => self.err_eof,
        }
    }

    pub closed spec fn format(self) -> Seq<u8> {
        self.fmt@
    }

    /// Shape of the log: it opens with the start banner; every further entry
    /// is an annotated child line, except that a `Done` session ends with
    /// the finish banner carrying the recorded exit code.
    pub open spec fn wf(self) -> bool {
        &&& self.log().len() >= 1
        &&& is_start(self.log()[0])
        &&& forall|i: int|
            1 <= i < self.log().len() && !(self.phase() is Done && i == self.log().len() - 1)
                ==> is_child(#[trigger] self.log()[i])
        &&& (self.phase() is Done ==> self.log().len() >= 2 && is_finish_with(
            self.log().last(),
            self.exit_code() as int,
        ))
    }

    /// Open a session: capture a start timestamp and hand out the start
    /// banner, the first record of the run.
    pub fn begin(fmt: Vec<u8>, argv: &Vec<Vec<u8>>) -> (r: (Session, Vec<u8>))
        ensures
            r.0.wf(),
            r.0.phase() is Running,
            !r.0.stream_eof(Tag::Stdout),
            !r.0.stream_eof(Tag::Stderr),
            r.0.format() == fmt@,
            r.0.log().len() == 1,
            is_start(r.0.log()[0]),
            exists|ts: Seq<u8>|
                r.0.log()[0] == (LogEntry::Start { ts, argv: views_of(argv@) }),
            r.1@ == rendered(r.0.log()[0]),
    {
        let ts = crate::clock::format_now(&fmt);
        let banner = start_banner(&ts, argv);
        let ghost first_entry = seq![LogEntry::Start { ts: ts@, argv: views_of(argv@) }];
        let s = Session {
            fmt,
            phase: Phase::Running,
            exit_code: 0,
            exit_ts: Vec::new(),
            out_eof: false,
            err_eof: false,
            history: Ghost(first_entry),
        };
        (s, banner)
    }

    /// Annotate one line of a child stream: capture a timestamp and hand out
    /// the record. Only while the run is not finished, and only for a stream
    /// not yet drained.
    pub fn child_record(&mut self, tag: Tag, chunk: &Vec<u8>) -> (rec: Vec<u8>)
        requires
            old(self).wf(),
            !(old(self).phase() is Done),
            !old(self).stream_eof(tag),
            chunk@.len() > 0,
        ensures
            final(self).wf(),
            final(self).phase() == old(self).phase(),
            final(self).exit_code() == old(self).exit_code(),
            final(self).format() == old(self).format(),
            forall|t: Tag| final(self).stream_eof(t) == old(self).stream_eof(t),
            final(self).log().len() == old(self).log().len() + 1,
            final(self).log().drop_last() == old(self).log(),
            is_child(final(self).log().last()),
            exists|ts: Seq<u8>|
                final(self).log().last() == (LogEntry::Child { ts, tag, chunk: chunk@ }),
            rec@ == rendered(final(self).log().last()),
    {
        let ts = crate::clock::format_now(&self.fmt);
        let rec = make_record(&ts, tag, chunk);
        proof {
            let entry = LogEntry::Child { ts: ts@, tag, chunk: chunk@ };
            self.history@ = self.history@.push(entry);
            assert(self.history@.drop_last() =~= old(self).history@);
        }
        rec
    }

    /// Declare a stream drained: its reader will hand out no further record,
    /// having seen end-of-stream (or having failed and given up).
    pub fn mark_eof(&mut self, tag: Tag)
        requires
            old(self).wf(),
        ensures
            final(self).wf(),
            final(self).phase() == old(self).phase(),
            final(self).exit_code() == old(self).exit_code(),
            final(self).format() == old(self).format(),
            final(self).log() == old(self).log(),
            final(self).stream_eof(tag),
            forall|t: Tag| t != tag ==> final(self).stream_eof(t) == old(self).stream_eof(t),
    {
        match tag {
            Tag::Stdout => self.out_eof = true,
            Tag::Stderr => self.err_eof = true,
        }
    }

    /// Record the child's termination: capture the exit code and, at this
    /// very moment, the timestamp the finish banner will carry. The banner
    /// itself is deferred until both streams are drained.
    pub fn note_exit(&mut self, code: i32)
        requires
            old(self).wf(),
            old(self).phase() is Running,
        ensures
            final(self).wf(),
            final(self).phase() is Exited,
            final(self).exit_code() == code,
            final(self).format() == old(self).format(),
            final(self).log() == old(self).log(),
            forall|t: Tag| final(self).stream_eof(t) == old(self).stream_eof(t),
    {
        let ts = crate::clock::format_now(&self.fmt);
        self.exit_ts = ts;
        self.exit_code = code;
        self.phase = Phase::Exited;
    }

    /// Close the run: hand out the finish banner. Demands that the child has
    /// exited and that both streams are drained, so every annotated line
    /// precedes this record; no record can follow it.
    pub fn finish(&mut self) -> (rec: Vec<u8>)
        requires
            old(self).wf(),
            old(self).phase() is Exited,
            old(self).stream_eof(Tag::Stdout),
            old(self).stream_eof(Tag::Stderr),
        ensures
            final(self).wf(),
            final(self).phase() is Done,
            final(self).exit_code() == old(self).exit_code(),
            final(self).log().len() == old(self).log().len() + 1,
            final(self).log().drop_last() == old(self).log(),
            is_finish_with(final(self).log().last(), old(self).exit_code() as int),
            exists|ts: Seq<u8>|
                final(self).log().last() == (LogEntry::Finish {
                    ts,
                    code: old(self).exit_code() as int,
                }),
            rec@ == rendered(final(self).log().last()),
    {
        let banner = finish_banner(&self.exit_ts, self.exit_code);
        self.phase = Phase::Done;
        proof {
            let entry = LogEntry::Finish { ts: self.exit_ts@, code: self.exit_code as int };
            self.history@ = self.history@.push(entry);
            assert(self.history@.drop_last() =~= old(self).history@);
        }
        banner
    }

    /// The phase the run stands in; lets an unverified caller check the
    /// phase before asking for records.
    pub fn current_phase(&self) -> (p: Phase)
        ensures
            p == self.phase(),
    {
        self.phase
    }

    /// Whether a stream was already declared drained.
    pub fn is_stream_eof(&self, tag: Tag) -> (b: bool)
        ensures
            b == self.stream_eof(tag),
    {
        match tag {
            Tag::Stdout => self.out_eof,
            Tag::Stderr => self.err_eof,
        }
    }
}

/// Law: in a well-formed session the start banner stands at index 0 of the
/// log — it was handed out before every other record — and nowhere else.
pub proof fn lemma_start_banner_first(s: Session)
    requires
        s.wf(),
    ensures
        s.log().len() >= 1,
        is_start(s.log()[0]),
        forall|i: int| 1 <= i < s.log().len() ==> !is_start(#[trigger] s.log()[i]),
{
}

/// Law: once a session is finished, the finish banner is the last record of
/// the log, no earlier record is a finish banner, and its exit-code field is
/// the code the child actually terminated with, as the session recorded it.
pub proof fn lemma_finish_banner_last(s: Session)
    requires
        s.wf(),
        s.phase() is Done,
    ensures
        s.log().len() >= 2,
        is_finish_with(s.log().last(), s.exit_code() as int),
        forall|i: int| 0 <= i < s.log().len() - 1 ==> !is_finish(#[trigger] s.log()[i]),
{
}

} // verus!
