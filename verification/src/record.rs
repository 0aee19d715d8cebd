//! The annotated records written to the shared output: one per child line,
//! plus the start and finish banners. Each record is a single output line,
//! `<timestamp> <tag>: <body>`, terminated by exactly one newline.

use crate::bytes::{append_bytes, copy_bytes, views_of};
use crate::lines::nl;
use vstd::prelude::*;

verus! {

/// Which child stream a line came from.
#[derive(Clone, Copy, PartialEq, Eq, Structural, Debug)]
pub enum Tag {
    Stdout,
    Stderr,
}

/// The single-letter mark of a stream: `O` for stdout, `E` for stderr.
pub open spec fn tag_byte(t: Tag) -> u8 {
    match t {
        Tag::Stdout => 79u8,
        Tag::Stderr => 69u8,
    }
}

/// The `" <tag>: "` separator between the timestamp and the body.
pub open spec fn sep_bytes(tag: u8) -> Seq<u8> {
    seq![32u8, tag, 58u8, 32u8]
}

/// The body of an annotated line: the chunk itself, with a newline appended
/// when the chunk does not already end with one.
pub open spec fn body_bytes(chunk: Seq<u8>) -> Seq<u8> {
    if chunk.len() > 0 && chunk.last() == nl() {
        chunk
    } else {
        chunk.push(nl())
    }
}

/// A full annotated record: timestamp, separator with the stream's tag, body.
pub open spec fn record_bytes(ts: Seq<u8>, tag: u8, chunk: Seq<u8>) -> Seq<u8> {
    ts + sep_bytes(tag) + body_bytes(chunk)
}

/// `" I: Started "`, the fixed text of the start banner.
pub open spec fn started_bytes() -> Seq<u8> {
    seq![32u8, 73u8, 58u8, 32u8, 83u8, 116u8, 97u8, 114u8, 116u8, 101u8, 100u8, 32u8]
}

/// `" I: Finished with exitcode "`, the fixed text of the finish banner.
pub open spec fn finished_bytes() -> Seq<u8> {
    seq![
        32u8, 73u8, 58u8, 32u8, 70u8, 105u8, 110u8, 105u8, 115u8, 104u8, 101u8, 100u8, 32u8,
        119u8, 105u8, 116u8, 104u8, 32u8, 101u8, 120u8, 105u8, 116u8, 99u8, 111u8, 100u8, 101u8,
        32u8,
    ]
}

/// The command's arguments joined by single spaces.
pub open spec fn joined(parts: Seq<Seq<u8>>) -> Seq<u8>
    decreases parts.len(),
{
    if parts.len() == 0 {
        Seq::empty()
    } else if parts.len() == 1 {
        parts[0]
    } else {
        joined(parts.drop_last()) + seq![32u8] + parts.last()
    }
}

/// Decimal digits of a non-negative number, most significant first.
pub open spec fn dec_nat(n: nat) -> Seq<u8>
    decreases n,
{
    if n < 10 {
        seq![(48 + n) as u8]
    } else {
        dec_nat(n / 10) + seq![(48 + n % 10) as u8]
    }
}

/// Decimal rendering of an integer, with a leading minus sign if negative.
pub open spec fn dec_int(n: int) -> Seq<u8> {
    if n < 0 {
        seq![45u8] + dec_nat((-n) as nat)
    } else {
        dec_nat(n as nat)
    }
}

/// The full start banner line: `<ts> I: Started <argv joined by spaces>\n`.
pub open spec fn start_banner_bytes(ts: Seq<u8>, argv: Seq<Seq<u8>>) -> Seq<u8> {
    ts + started_bytes() + joined(argv) + seq![nl()]
}

/// The full finish banner line: `<ts> I: Finished with exitcode <code>\n`.
pub open spec fn finish_banner_bytes(ts: Seq<u8>, code: int) -> Seq<u8> {
    ts + finished_bytes() + dec_int(code) + seq![nl()]
}

/// Build one annotated record from a timestamp, a stream tag and a chunk.
pub fn make_record(ts: &Vec<u8>, tag: Tag, chunk: &Vec<u8>) -> (r: Vec<u8>)
    requires
        chunk@.len() > 0,
    ensures
        r@ == record_bytes(ts@, tag_byte(tag), chunk@),
{
    let mut r = copy_bytes(ts);
    r.push(32);
    match tag {
        Tag::Stdout => r.push(79),
        Tag::Stderr => r.push(69),
    }
    r.push(58);
    r.push(32);
    assert(r@ =~= ts@ + sep_bytes(tag_byte(tag)));
    append_bytes(&mut r, chunk);
    if chunk[chunk.len() - 1] != 10 {
        r.push(10);
        assert(r@ =~= ts@ + sep_bytes(tag_byte(tag)) + chunk@.push(nl()));
    } else {
        assert(r@ =~= ts@ + sep_bytes(tag_byte(tag)) + chunk@);
    }
    r
}

/// Render a non-negative number in decimal.
fn dec_u32(n: u32) -> (r: Vec<u8>)
    ensures
        r@ == dec_nat(n as nat),
{
    let mut m: u32 = n;
    let mut acc: Vec<u8> = Vec::new();
    loop
        invariant_except_break
            dec_nat(n as nat) == dec_nat(m as nat) + acc@,
        ensures
            acc@ == dec_nat(n as nat),
        decreases m,
    {
        if m < 10 {
            let d: u8 = 48 + (m as u8);
            let ghost acc0 = acc@;
            acc.insert(0, d);
            proof {
                assert(acc@ =~= seq![d] + acc0);
                assert(dec_nat(m as nat) =~= seq![d]);
                assert(acc@ =~= dec_nat(n as nat));
            }
            break ;
        } else {
            let d: u8 = 48 + ((m % 10) as u8);
            let ghost m0: nat = m as nat;
            let ghost acc0 = acc@;
            acc.insert(0, d);
            m = m / 10;
            proof {
                assert(dec_nat(m0) == dec_nat(m0 / 10) + seq![(48 + m0 % 10) as u8]);
                assert(acc@ =~= seq![d] + acc0);
                assert(dec_nat(m as nat) + acc@ =~= dec_nat(m0) + acc0);
            }
        }
    }
    acc
}

/// Render an integer in decimal, with a leading minus sign if negative.
pub fn dec_i32(n: i32) -> (r: Vec<u8>)
    ensures
        r@ == dec_int(n as int),
{
    if n >= 0 {
        dec_u32(n as u32)
    } else {
        let m: u32 = ((-(n as i64)) as u32);
        let mut r: Vec<u8> = Vec::new();
        r.push(45);
        let digits = dec_u32(m);
        append_bytes(&mut r, &digits);
        assert(r@ =~= seq![45u8] + dec_nat((-(n as int)) as nat));
        r
    }
}

/// Join the command's arguments with single spaces, as the start banner
/// shows them.
pub fn join_argv(parts: &Vec<Vec<u8>>) -> (r: Vec<u8>)
    ensures
        r@ == joined(views_of(parts@)),
{
    let ghost vs = views_of(parts@);
    let mut r: Vec<u8> = Vec::new();
    let mut i: usize = 0;
    assert(vs.subrange(0, 0) =~= Seq::<Seq<u8>>::empty());
    while i < parts.len()
        invariant
            0 <= i <= parts@.len(),
            vs == views_of(parts@),
            r@ == joined(vs.subrange(0, i as int)),
        decreases parts@.len() - i,
    {
        if i > 0 {
            r.push(32);
        }
        append_bytes(&mut r, &parts[i]);
        i = i + 1;
        proof {
            let pre = vs.subrange(0, i - 1);
            let now = vs.subrange(0, i as int);
            assert(now.last() == vs[i - 1]);
            if i == 1 {
                assert(now.len() == 1);
                assert(r@ =~= now[0]);
            } else {
                assert(now.drop_last() =~= pre);
                assert(joined(now) == joined(pre) + seq![32u8] + vs[i - 1]);
                assert(r@ =~= joined(pre) + seq![32u8] + vs[i - 1]);
            }
        }
    }
    assert(vs.subrange(0, parts@.len() as int) =~= vs);
    r
}

/// Build the start banner for a timestamp and an argument vector.
pub fn start_banner(ts: &Vec<u8>, argv: &Vec<Vec<u8>>) -> (r: Vec<u8>)
    ensures
        r@ == start_banner_bytes(ts@, views_of(argv@)),
{
    let mut r = copy_bytes(ts);
    r.push(32);
    r.push(73);
    r.push(58);
    r.push(32);
    r.push(83);
    r.push(116);
    r.push(97);
    r.push(114);
    r.push(116);
    r.push(101);
    r.push(100);
    r.push(32);
    assert(r@ =~= ts@ + started_bytes());
    let j = join_argv(argv);
    append_bytes(&mut r, &j);
    r.push(10);
    assert(r@ =~= ts@ + started_bytes() + joined(views_of(argv@)) + seq![nl()]);
    r
}

/// Build the finish banner for a timestamp and the child's exit code.
pub fn finish_banner(ts: &Vec<u8>, code: i32) -> (r: Vec<u8>)
    ensures
        r@ == finish_banner_bytes(ts@, code as int),
{
    let mut r = copy_bytes(ts);
    r.push(32);
    r.push(73);
    r.push(58);
    r.push(32);
    r.push(70);
    r.push(105);
    r.push(110);
    r.push(105);
    r.push(115);
    r.push(104);
    r.push(101);
    r.push(100);
    r.push(32);
    r.push(119);
    r.push(105);
    r.push(116);
    r.push(104);
    r.push(32);
    r.push(101);
    r.push(120);
    r.push(105);
    r.push(116);
    r.push(99);
    r.push(111);
    r.push(100);
    r.push(101);
    r.push(32);
    assert(r@ =~= ts@ + finished_bytes());
    let digits = dec_i32(code);
    append_bytes(&mut r, &digits);
    r.push(10);
    assert(r@ =~= ts@ + finished_bytes() + dec_int(code as int) + seq![nl()]);
    r
}

/// Law: an annotated record is a single output line. When the timestamp is
/// newline-free and the chunk holds a newline only as its last byte — as
/// every segment of `line_segments` does — the record ends with a newline
/// and holds no other.
pub proof fn lemma_record_single_line(ts: Seq<u8>, tag: u8, chunk: Seq<u8>)
    requires
        chunk.len() > 0,
        tag != nl(),
        forall|k: int| 0 <= k < ts.len() ==> ts[k] != nl(),
        forall|k: int| 0 <= k < chunk.len() - 1 ==> chunk[k] != nl(),
    ensures
        record_bytes(ts, tag, chunk).len() > 0,
        record_bytes(ts, tag, chunk).last() == nl(),
        forall|k: int|
            0 <= k < record_bytes(ts, tag, chunk).len() - 1 ==> record_bytes(ts, tag, chunk)[k]
                != nl(),
{
    let r = record_bytes(ts, tag, chunk);
    let body = body_bytes(chunk);
    assert(body.last() == nl());
    assert forall|k: int| 0 <= k < r.len() - 1 implies r[k] != nl() by {
        let tl = ts.len() as int;
        if k < tl {
            assert(r[k] == ts[k]);
        } else if k < tl + 4 {
            assert(r[k] == sep_bytes(tag)[k - tl]);
        } else {
            assert(r[k] == body[k - tl - 4]);
            if chunk.len() > 0 && chunk.last() == nl() {
                assert(body[k - tl - 4] == chunk[k - tl - 4]);
            } else {
                assert(body[k - tl - 4] == chunk.push(nl())[k - tl - 4]);
            }
        }
    }
}

} // verus!
