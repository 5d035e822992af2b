//! The unrecoverable conditions and the handlers they end in.

use crate::console::{emitted, Console, Signal, SENTINEL};
use crate::text::{
    begin, decimal, joined, lemma_put_all_push, lemma_put_all_whole, line_break, put_all, Staging,
    TextBuffer, CAPACITY,
};
use vstd::prelude::*;
use vstd::string::*;
use vstd::utf8::*;

verus! {

/// The conditions that end the program.
#[derive(Clone, Copy, Debug, PartialEq, Eq, Structural)]
pub enum Fatal {
    /// The heap cannot satisfy a request.
    OutOfMemory,
    /// The text buffer cannot hold a line that must be emitted whole.
    FormatOverflow,
    /// The value taken from the growable buffer is not the one put there.
    LogicViolation,
    /// The designed end of the demonstration.
    IntentionalTermination,
}

impl Fatal {
    /// The message with which the condition is signalled.
    pub open spec fn text(self) -> Seq<char> {
        match self {
            Fatal::OutOfMemory => "Heap"@,
            Fatal::FormatOverflow => "called `Result::unwrap()` on an `Err` value: Error"@,
            Fatal::LogicViolation => "??"@,
            Fatal::IntentionalTermination => "test"@,
        }
    }

    pub fn message(&self) -> (m: &'static str)
        ensures
            m@ == self.text(),
    {
        match self {
            Fatal::OutOfMemory => "Heap",
            Fatal::FormatOverflow => "called `Result::unwrap()` on an `Err` value: Error",
            Fatal::LogicViolation => "??",
            Fatal::IntentionalTermination => "test",
        }
    }
}

/// What the panic handler is told of a fatal condition: its message and the
/// place in the source at which it was signalled.
pub struct DiagnosticRecord<'a> {
    pub message: &'a str,
    pub file: &'a str,
    pub line: u32,
    pub column: u32,
}

/// The bytes of `panicked at `.
pub open spec fn panicked_at() -> Seq<u8> {
    seq![112u8, 97u8, 110u8, 105u8, 99u8, 107u8, 101u8, 100u8, 32u8, 97u8, 116u8, 32u8]
}

/// The pieces of the diagnostic line, in the order in which they are written:
/// `panicked at <file>:<line>:<column>:`, a line feed, the message, and a
/// line break.
pub open spec fn diagnostic_pieces(record: DiagnosticRecord) -> Seq<Seq<u8>> {
    seq![
        panicked_at(),
        encode_utf8(record.file@),
        seq![58u8],
        decimal(record.line as int),
        seq![58u8],
        decimal(record.column as int),
        seq![58u8, 10u8],
        encode_utf8(record.message@),
        line_break(),
    ]
}

/// What the buffer holds of the diagnostic line: its pieces up to the first
/// that does not fit.
pub open spec fn diagnostic_text(record: DiagnosticRecord) -> Seq<u8> {
    put_all(begin(Seq::empty()), diagnostic_pieces(record)).text
}

/// The console after the panic handler has run on one that held `before`:
/// the sentinel byte, the diagnostic text, and one invocation of the fault
/// trigger.
pub open spec fn handled(before: Seq<Signal>, record: DiagnosticRecord) -> Seq<Signal> {
    (before.push(Signal::Byte(SENTINEL)) + emitted(diagnostic_text(record))).push(Signal::Fault)
}

/// The whole diagnostic line: `panicked at <file>:<line>:<column>:`, a line
/// feed, the message, and a line break.
pub open spec fn diagnostic_line(record: DiagnosticRecord) -> Seq<u8> {
    panicked_at() + encode_utf8(record.file@) + seq![58u8] + decimal(record.line as int) + seq![
        58u8,
    ] + decimal(record.column as int) + seq![58u8, 10u8] + encode_utf8(record.message@)
        + line_break()
}

/// A diagnostic line of no more bytes than the text buffer holds is sent
/// whole; of a longer one the text buffer holds less than the line.
pub proof fn lemma_diagnostic_whole(record: DiagnosticRecord)
    ensures
        diagnostic_line(record).len() <= CAPACITY ==> diagnostic_text(record) == diagnostic_line(
            record,
        ),
        diagnostic_line(record).len() > CAPACITY ==> diagnostic_text(record).len()
            < diagnostic_line(record).len(),
{
    let pieces = diagnostic_pieces(record);
    let p8 = pieces.drop_last();
    let p7 = p8.drop_last();
    let p6 = p7.drop_last();
    let p5 = p6.drop_last();
    let p4 = p5.drop_last();
    let p3 = p4.drop_last();
    let p2 = p3.drop_last();
    let p1 = p2.drop_last();
    assert(p1.drop_last() =~= Seq::<Seq<u8>>::empty());
    reveal_with_fuel(joined, 10);
    assert(joined(pieces) =~= diagnostic_line(record));
    lemma_put_all_whole(begin(Seq::empty()), pieces);
    assert(Seq::<u8>::empty() + joined(pieces) =~= joined(pieces));
}

/// The panic handler adds to the console exactly this: first the sentinel
/// byte, once; then the bytes of the diagnostic text, which are no more than
/// the text buffer holds; and last one invocation of the fault trigger, with
/// no other before it and nothing after it.
pub proof fn lemma_handled_signals(before: Seq<Signal>, record: DiagnosticRecord)
    ensures
        diagnostic_text(record).len() <= CAPACITY,
        handled(before, record).len() == before.len() + diagnostic_text(record).len() + 2,
        before.is_prefix_of(handled(before, record)),
        handled(before, record)[before.len() as int] == Signal::Byte(SENTINEL),
        forall|k: int|
            0 <= k < diagnostic_text(record).len() ==> #[trigger] handled(before, record)[before.len()
                + 1 + k] == Signal::Byte(diagnostic_text(record)[k]),
        forall|k: int|
            before.len() <= k < handled(before, record).len() - 1 ==> #[trigger] handled(
                before,
                record,
            )[k] != Signal::Fault,
        handled(before, record).last() == Signal::Fault,
{
    lemma_put_all_whole(begin(Seq::empty()), diagnostic_pieces(record));
    let after = handled(before, record);
    assert forall|k: int| before.len() <= k < after.len() - 1 implies #[trigger] after[k]
        != Signal::Fault by {
        if k > before.len() {
            assert(after[k] == Signal::Byte(diagnostic_text(record)[k - before.len() - 1]));
        }
    }
}

/// The panic handler. Sends the sentinel byte, then as much of the diagnostic
/// line as the text buffer holds, then invokes the fault trigger once, and
/// sends nothing after that.
pub fn on_panic(record: &DiagnosticRecord, console: &mut Console)
    ensures
        final(console)@ == handled(old(console)@, *record),
{
    console.putchar(SENTINEL);
    let mut buf = TextBuffer::new();
    let ghost st = begin(buf@);
    let ghost done: Seq<Seq<u8>> = Seq::empty();
    proof {
        reveal_strlit("panicked at ");
        reveal_strlit(":");
        reveal_strlit(":\n");
        is_ascii_spec_bytes("panicked at ");
        is_ascii_spec_bytes(":");
        is_ascii_spec_bytes(":\n");
        assert("panicked at ".spec_bytes() =~= panicked_at());
        assert(":".spec_bytes() =~= seq![58u8]);
        assert(":\n".spec_bytes() =~= seq![58u8, 10u8]);
    }
    let w = buf.stage_str(true, "panicked at ");
    proof {
        lemma_put_all_push(st, done, panicked_at());
        done = done.push(panicked_at());
    }
    let w = buf.stage_str(w, record.file);
    proof {
        lemma_put_all_push(st, done, encode_utf8(record.file@));
        done = done.push(encode_utf8(record.file@));
    }
    let w = buf.stage_str(w, ":");
    proof {
        lemma_put_all_push(st, done, seq![58u8]);
        done = done.push(seq![58u8]);
    }
    let w = buf.stage_u32(w, record.line);
    proof {
        lemma_put_all_push(st, done, decimal(record.line as int));
        done = done.push(decimal(record.line as int));
    }
    let w = buf.stage_str(w, ":");
    proof {
        lemma_put_all_push(st, done, seq![58u8]);
        done = done.push(seq![58u8]);
    }
    let w = buf.stage_u32(w, record.column);
    proof {
        lemma_put_all_push(st, done, decimal(record.column as int));
        done = done.push(decimal(record.column as int));
    }
    let w = buf.stage_str(w, ":\n");
    proof {
        lemma_put_all_push(st, done, seq![58u8, 10u8]);
        done = done.push(seq![58u8, 10u8]);
    }
    let w = buf.stage_str(w, record.message);
    proof {
        lemma_put_all_push(st, done, encode_utf8(record.message@));
        done = done.push(encode_utf8(record.message@));
    }
    let w = buf.stage_line_break(w);
    proof {
        lemma_put_all_push(st, done, line_break());
        done = done.push(line_break());
        assert(done =~= diagnostic_pieces(*record));
        assert((Staging { text: buf@, whole: w }) == put_all(st, done));
    }
    console.write(buf.as_bytes());
    console.crash();
}

/// Called when the heap cannot satisfy a request: the condition to signal.
pub fn alloc_error() -> (fatal: Fatal)
    ensures
        fatal == Fatal::OutOfMemory,
{
    Fatal::OutOfMemory
}

} // verus!
