//! The line format of the backing file: one record per task, a status
//! digit, the task's text in UTF-8, and a newline.
use vstd::prelude::*;
use vstd::slice::slice_subrange;
use vstd::utf8::{decode_utf8, encode_scalar, encode_utf8, valid_utf8};

use crate::status::{code_of, lemma_code_round_trip, status_of_code, Status};
use crate::task::{models, Task, TaskModel, TodoError};

verus! {

broadcast use vstd::utf8::encode_utf8_valid_utf8, vstd::utf8::encode_utf8_decode_utf8;

/// The byte that ends each record.
pub const NEWLINE: u8 = 10;

/// The byte of the digit zero; a status is stored as `ZERO + code`.
pub const ZERO: u8 = 48;

/// What a text is once leading and trailing whitespace is cut off.
pub uninterp spec fn trim_of(s: Seq<char>) -> Seq<char>;

/// Relies on `str::trim`: it returns the text without its leading and
/// trailing whitespace, so every character it holds is one of the text.
#[verifier::external_body]
fn trim(s: &str) -> (r: &str)
    ensures
        r@ == trim_of(s@),
        forall|k: int| 0 <= k < r@.len() ==> s@.contains(#[trigger] r@[k]),
{
    s.trim()
}

/// Relies on `std::str::from_utf8`: it accepts exactly the valid UTF-8
/// byte sequences and returns the text they encode.
#[verifier::external_body]
fn utf8_text(b: &[u8]) -> (r: Option<&str>)
    ensures
        r.is_some() <==> valid_utf8(b@),
        r.is_some() ==> r.unwrap()@ == decode_utf8(b@),
{
    std::str::from_utf8(b).ok()
}

/// Whether a text holds a newline character.
pub open spec fn has_newline(s: Seq<char>) -> bool {
    exists|k: int| 0 <= k < s.len() && s[k] == '\n'
}

/// Whether a byte sequence holds a newline byte.
pub open spec fn has_newline_byte(b: Seq<u8>) -> bool {
    exists|k: int| 0 <= k < b.len() && b[k] == NEWLINE
}

/// The status that the first byte of a record stands for: a digit is read
/// as a code, anything else is `Invalid`.
pub open spec fn status_of_byte(b: u8) -> Status {
    if ZERO <= b && b <= ZERO + 9 {
        status_of_code((b - ZERO) as u8)
    } else {
        Status::Invalid
    }
}

/// The record of a status and a text, newline included.
pub open spec fn line_of(s: Status, text: Seq<char>) -> Seq<u8> {
    seq![(ZERO + code_of(s)) as u8] + encode_utf8(text) + seq![NEWLINE]
}

/// What is written for a task: its status and its trimmed text.
pub open spec fn encoded(t: TaskModel) -> Seq<u8> {
    line_of(t.1, trim_of(t.0))
}

/// What is written for a sequence of tasks, in order.
pub open spec fn encode_all(ts: Seq<TaskModel>) -> Seq<u8>
    decreases ts.len(),
{
    if ts.len() == 0 {
        seq![]
    } else {
        encoded(ts[0]) + encode_all(ts.drop_first())
    }
}

/// The records of `b` from position `i` on, the current one having begun at
/// `cur`. Each newline ends a record (without the newline); bytes after the
/// last newline form no record.
pub open spec fn records_from(b: Seq<u8>, cur: int, i: int) -> Seq<Seq<u8>>
    decreases b.len() - i,
{
    if i >= b.len() {
        seq![]
    } else if b[i] == NEWLINE {
        seq![b.subrange(cur, i)] + records_from(b, i + 1, i + 1)
    } else {
        records_from(b, cur, i + 1)
    }
}

/// The newline-terminated records of a file's content.
pub open spec fn records(b: Seq<u8>) -> Seq<Seq<u8>> {
    records_from(b, 0, 0)
}

/// The status of a record: its first byte decoded, `Invalid` for an empty one.
pub open spec fn record_status(r: Seq<u8>) -> Status {
    if r.len() == 0 {
        Status::Invalid
    } else {
        status_of_byte(r[0])
    }
}

/// The bytes of a record's text: all but the first.
pub open spec fn record_text(r: Seq<u8>) -> Seq<u8> {
    if r.len() == 0 {
        seq![]
    } else {
        r.subrange(1, r.len() as int)
    }
}

/// Whether a record's text is valid UTF-8.
pub open spec fn record_ok(r: Seq<u8>) -> bool {
    valid_utf8(record_text(r))
}

/// The task that a record stands for.
pub open spec fn record_model(r: Seq<u8>) -> TaskModel {
    (decode_utf8(record_text(r)), record_status(r))
}

/// Whether every record of a file's content can be read.
pub open spec fn file_ok(b: Seq<u8>) -> bool {
    forall|k: int| 0 <= k < records(b).len() ==> record_ok(#[trigger] records(b)[k])
}

/// The tasks that a file's content holds, in order.
pub open spec fn file_tasks(b: Seq<u8>) -> Seq<TaskModel> {
    records(b).map_values(|r: Seq<u8>| record_model(r))
}

fn status_of_first(c: u8) -> (r: Status)
    ensures
        r == status_of_byte(c),
{
    if c >= ZERO && c <= ZERO + 9 {
        Status::get_enum(c - ZERO)
    } else {
        Status::Invalid
    }
}

fn append_bytes(out: &mut Vec<u8>, b: &[u8])
    ensures
        final(out)@ == old(out)@ + b@,
{
    let n = b.len();
    let mut i: usize = 0;
    while i < n
        invariant
            n == b@.len(),
            i <= n,
            out@ == old(out)@ + b@.subrange(0, i as int),
        decreases n - i,
    {
        out.push(b[i]);
        i = i + 1;
        assert(b@.subrange(0, i as int) == b@.subrange(0, i - 1) + seq![b@[i - 1]]);
    }
    assert(b@.subrange(0, n as int) == b@);
}

/// The record written for a task: its status digit, its text with leading
/// and trailing whitespace cut off, and a newline. A task whose text holds
/// no newline reads back from it with its status and trimmed text.
pub fn encode_task(t: &Task) -> (r: Vec<u8>)
    ensures
        r@ == encoded(t@),
        !has_newline(t.task@) ==> file_ok(r@) && file_tasks(r@) == seq![
            (trim_of(t.task@), t.status),
        ],
{
    let mut out: Vec<u8> = Vec::new();
    out.push(t.status.get_code() + ZERO);
    let text = trim(t.task.as_str());
    append_bytes(&mut out, text.as_bytes());
    out.push(NEWLINE);
    proof {
        if !has_newline(t.task@) {
            assert(!has_newline(trim_of(t.task@))) by {
                assert forall|k: int| 0 <= k < text@.len() implies text@[k] != '\n' by {
                    assert(t.task@.contains(text@[k]));
                }
            }
            lemma_line_round_trip(t.status, trim_of(t.task@));
        }
    }
    out
}

/// The whole file content for a sequence of tasks.
pub fn encode_tasks(ts: &Vec<Task>) -> (r: Vec<u8>)
    ensures
        r@ == encode_all(models(ts@)),
{
    let mut out: Vec<u8> = Vec::new();
    let mut i: usize = 0;
    while i < ts.len()
        invariant
            i <= ts@.len(),
            out@ == encode_all(models(ts@).subrange(0, i as int)),
        decreases ts@.len() - i,
    {
        let line = encode_task(&ts[i]);
        proof {
            lemma_encode_all_push(models(ts@).subrange(0, i as int), ts@[i as int]@);
            assert(models(ts@).subrange(0, i + 1) == models(ts@).subrange(0, i as int).push(
                ts@[i as int]@,
            ));
        }
        append_bytes(&mut out, line.as_slice());
        i = i + 1;
    }
    assert(models(ts@).subrange(0, ts@.len() as int) == models(ts@));
    out
}

/// Reads the tasks of a file's content. Fails with `DecodeError` exactly
/// when some record's text is not valid UTF-8; an unknown status digit is
/// read as `Invalid`.
pub fn decode_tasks(b: &[u8]) -> (r: Result<Vec<Task>, TodoError>)
    ensures
        r.is_ok() <==> file_ok(b@),
        r.is_ok() ==> models(r.unwrap()@) == file_tasks(b@),
        r.is_err() ==> r == Err::<Vec<Task>, TodoError>(TodoError::DecodeError),
{
    let n = b.len();
    let mut tasks: Vec<Task> = Vec::new();
    let mut cur: usize = 0;
    let mut i: usize = 0;
    let ghost mut done: Seq<Seq<u8>> = seq![];
    while i < n
        invariant
            n == b@.len(),
            cur <= i <= n,
            records(b@) == done + records_from(b@, cur as int, i as int),
            tasks@.len() == done.len(),
            forall|k: int| 0 <= k < done.len() ==> #[trigger] tasks@[k]@ == record_model(done[k]),
            forall|k: int| 0 <= k < done.len() ==> record_ok(#[trigger] done[k]),
        decreases n - i,
    {
        if b[i] == NEWLINE {
            let rec = slice_subrange(b, cur, i);
            let ghost rest = records_from(b@, i + 1, i + 1);
            assert(records_from(b@, cur as int, i as int) == seq![rec@] + rest);
            let task = if cur == i {
                proof {
                    assert(decode_utf8(seq![]) == Seq::<char>::empty());
                }
                Task { task: String::new(), status: Status::Invalid }
            } else {
                let status = status_of_first(rec[0]);
                let body = slice_subrange(rec, 1, rec.len());
                match utf8_text(body) {
                    Some(text) => Task { task: text.to_owned(), status },
                    None => {
                        proof {
                            let k = done.len() as int;
                            assert(records(b@)[k] == rec@);
                        }
                        return Err(TodoError::DecodeError);
                    },
                }
            };
            proof {
                assert(record_ok(rec@));
                assert(task@ == record_model(rec@));
            }
            tasks.push(task);
            proof {
                assert(done + seq![rec@] + rest == done + (seq![rec@] + rest));
                done = done.push(rec@);
            }
            cur = i + 1;
        }
        i = i + 1;
    }
    assert(done == records(b@));
    assert(models(tasks@) =~= file_tasks(b@));
    Ok(tasks)
}

proof fn lemma_encode_all_push(ts: Seq<TaskModel>, t: TaskModel)
    ensures
        encode_all(ts.push(t)) == encode_all(ts) + encoded(t),
    decreases ts.len(),
{
    if ts.len() == 0 {
        assert(ts.push(t).drop_first() =~= Seq::<TaskModel>::empty());
        assert(ts.push(t)[0] == t);
        assert(encode_all(ts.push(t).drop_first()) == Seq::<u8>::empty());
        assert(encode_all(ts.push(t)) =~= encoded(t) + Seq::<u8>::empty());
        assert(encode_all(ts) + encoded(t) =~= encoded(t));
    } else {
        assert(ts.push(t).drop_first() =~= ts.drop_first().push(t));
        lemma_encode_all_push(ts.drop_first(), t);
        assert(encode_all(ts.push(t)) =~= encoded(ts[0]) + (encode_all(ts.drop_first()) + encoded(t)));
    }
}

proof fn lemma_high_bit_byte(x: u8)
    by (bit_vector)
    ensures
        (0x80u8 | x) != 10u8,
        (0xC0u8 | x) != 10u8,
        (0xE0u8 | x) != 10u8,
        (0xF0u8 | x) != 10u8,
{
}

proof fn lemma_ascii_byte(v: u32)
    by (bit_vector)
    requires
        v != 10,
    ensures
        v <= 0x7F ==> ((v & 0x7F) as u8) != 10u8,
{
}

proof fn lemma_scalar_no_newline(c: char)
    requires
        c != '\n',
    ensures
        !has_newline_byte(encode_scalar(c as u32)),
{
    let v = c as u32;
    assert(v != 10);
    lemma_ascii_byte(v);
    lemma_high_bit_byte(((v >> 6) & 0x1F) as u8);
    lemma_high_bit_byte(((v >> 12) & 0x0F) as u8);
    lemma_high_bit_byte(((v >> 18) & 0x7) as u8);
    lemma_high_bit_byte((v & 0x3F) as u8);
    lemma_high_bit_byte(((v >> 6) & 0x3F) as u8);
    lemma_high_bit_byte(((v >> 12) & 0x3F) as u8);
}

proof fn lemma_encode_no_newline(text: Seq<char>)
    requires
        !has_newline(text),
    ensures
        !has_newline_byte(encode_utf8(text)),
    decreases text.len(),
{
    if text.len() > 0 {
        let rest = text.drop_first();
        assert(!has_newline(rest)) by {
            assert forall|k: int| 0 <= k < rest.len() implies rest[k] != '\n' by {
                assert(rest[k] == text[k + 1]);
            }
        }
        lemma_encode_no_newline(rest);
        lemma_scalar_no_newline(text[0]);
        let head = encode_scalar(text[0] as u32);
        let tail = encode_utf8(rest);
        assert(encode_utf8(text) == head + tail);
        assert forall|k: int| 0 <= k < head.len() + tail.len() implies (head + tail)[k] != NEWLINE by {
            if k < head.len() {
                assert((head + tail)[k] == head[k]);
            } else {
                assert((head + tail)[k] == tail[k - head.len()]);
            }
        }
    }
}

proof fn lemma_records_shift(p: Seq<u8>, r: Seq<u8>, c: int, i: int)
    requires
        0 <= c <= i <= r.len(),
    ensures
        records_from(p + r, p.len() + c, p.len() + i) == records_from(r, c, i),
    decreases r.len() - i,
{
    let b = p + r;
    if i < r.len() {
        assert(b[p.len() + i] == r[i]);
        if r[i] == NEWLINE {
            lemma_records_shift(p, r, i + 1, i + 1);
            assert(b.subrange(p.len() + c, p.len() + i) =~= r.subrange(c, i));
        } else {
            lemma_records_shift(p, r, c, i + 1);
        }
    }
}

proof fn lemma_records_scan(b: Seq<u8>, cur: int, i: int, j: int)
    requires
        0 <= cur <= i <= j < b.len(),
        b[j] == NEWLINE,
        forall|k: int| i <= k < j ==> b[k] != NEWLINE,
    ensures
        records_from(b, cur, i) == seq![b.subrange(cur, j)] + records_from(b, j + 1, j + 1),
    decreases j - i,
{
    if i < j {
        lemma_records_scan(b, cur, i + 1, j);
    }
}

/// The record of a line, read from the front of a file's content.
proof fn lemma_records_line(s: Status, text: Seq<char>, rest: Seq<u8>)
    requires
        !has_newline(text),
    ensures
        records(line_of(s, text) + rest) == seq![line_of(s, text).drop_last()] + records(rest),
        record_ok(line_of(s, text).drop_last()),
        record_model(line_of(s, text).drop_last()) == (text, s),
{
    let l = line_of(s, text);
    let b = l + rest;
    let body = encode_utf8(text);
    lemma_encode_no_newline(text);
    assert forall|k: int| 0 <= k < l.len() - 1 implies b[k] != NEWLINE by {
        if k > 0 {
            assert(b[k] == body[k - 1]);
        }
    }
    lemma_records_scan(b, 0, 0, l.len() - 1);
    lemma_records_shift(l, rest, 0, 0);
    assert(b.subrange(0, l.len() - 1) =~= l.drop_last());
    assert(rest.subrange(0, rest.len() as int) =~= rest);
    assert(records_from(l + rest, l.len() as int, l.len() as int) == records(rest));
    assert(record_text(l.drop_last()) =~= body);
    lemma_code_round_trip(s);
}

/// A record written for a status and a text without newline reads back
/// as exactly that status and text.
pub proof fn lemma_line_round_trip(s: Status, text: Seq<char>)
    requires
        !has_newline(text),
    ensures
        file_ok(line_of(s, text)),
        file_tasks(line_of(s, text)) == seq![(text, s)],
{
    let l = line_of(s, text);
    lemma_records_line(s, text, seq![]);
    assert(l + Seq::<u8>::empty() =~= l);
    assert(records(Seq::<u8>::empty()) == Seq::<Seq<u8>>::empty());
    assert(records(l) =~= seq![l.drop_last()]);
    assert(file_tasks(l) =~= seq![(text, s)]);
}

/// Tasks whose texts hold no newline and no leading or trailing
/// whitespace are read back, in order, from what is written for them.
pub proof fn lemma_file_round_trip(ts: Seq<TaskModel>)
    requires
        forall|k: int|
            0 <= k < ts.len() ==> !has_newline(#[trigger] ts[k].0) && trim_of(ts[k].0) == ts[k].0,
    ensures
        file_ok(encode_all(ts)),
        file_tasks(encode_all(ts)) == ts,
    decreases ts.len(),
{
    if ts.len() == 0 {
        assert(records(Seq::<u8>::empty()) == Seq::<Seq<u8>>::empty());
        assert(file_tasks(encode_all(ts)) =~= ts);
    } else {
        let rest = ts.drop_first();
        assert(forall|k: int| 0 <= k < rest.len() ==> #[trigger] rest[k] == ts[k + 1]);
        lemma_file_round_trip(rest);
        let t = ts[0];
        assert(!has_newline(ts[0].0));
        lemma_records_line(t.1, t.0, encode_all(rest));
        let recs = records(encode_all(ts));
        let tail = records(encode_all(rest));
        assert(recs == seq![line_of(t.1, t.0).drop_last()] + tail);
        assert forall|k: int| 0 <= k < recs.len() implies record_ok(#[trigger] recs[k]) by {
            if k > 0 {
                assert(recs[k] == tail[k - 1]);
            }
        }
        assert(file_tasks(encode_all(ts)) =~= ts) by {
            assert forall|k: int| 0 <= k < ts.len() implies #[trigger] file_tasks(encode_all(ts))[k] == ts[k] by {
                if k > 0 {
                    assert(recs[k] == tail[k - 1]);
                    assert(file_tasks(encode_all(rest))[k - 1] == rest[k - 1]);
                }
            }
        }
    }
}

} // verus!
