//! The entry routine: a banner, a short loop over a growable buffer with two
//! lines of output per round, a sorted dump of the buffer, and the designed
//! fatal end.

use crate::console::{emitted, print, Console, Signal};
use crate::fatal::Fatal;
use crate::sort::{at_most, lemma_sorted_same, sort, sorted};
use crate::text::{
    begin, decimal, joined, lemma_decimal_len, lemma_put_all_push, lemma_put_all_whole,
    line_break, put_all, Staging, TextBuffer,
};
use crate::transcript::{expected_output, lemma_whole_run};
use vstd::prelude::*;
use vstd::string::*;
use vstd::utf8::*;

verus! {

/// First value of the loop variable.
pub const FIRST: i32 = 2;

/// Last value of the loop variable.
pub const LAST: i32 = 3;

/// The bytes of the banner, `Rust` and a line break.
pub open spec fn banner() -> Seq<u8> {
    seq![82u8, 117u8, 115u8, 116u8, 13u8, 10u8]
}

/// The pieces of the line `i <i>`.
pub open spec fn index_pieces(i: i32) -> Seq<Seq<u8>> {
    seq![seq![105u8, 32u8], decimal(i as int), line_break()]
}

/// The line `i <i>`: the letter, a space, the number, and a line break.
pub open spec fn index_line(i: i32) -> Seq<u8> {
    seq![105u8, 32u8] + decimal(i as int) + line_break()
}

/// The pieces of the line that holds the text of a quotient.
pub open spec fn quotient_pieces(quotient: Seq<u8>) -> Seq<Seq<u8>> {
    seq![quotient, line_break()]
}

/// What an empty text buffer holds of the quotient line: the text and a line
/// break if both fit, the text alone if only the line break does not, and
/// nothing if the text does not.
pub open spec fn quotient_line(quotient: Seq<u8>) -> Seq<u8> {
    put_all(begin(Seq::empty()), quotient_pieces(quotient)).text
}

/// The pieces between the brackets of a dump: the elements in decimal, with a
/// comma and a space before each but the first.
pub open spec fn entry_pieces(xs: Seq<i32>) -> Seq<Seq<u8>>
    decreases xs.len(),
{
    if xs.len() == 0 {
        Seq::empty()
    } else if xs.len() == 1 {
        seq![decimal(xs[0] as int)]
    } else {
        entry_pieces(xs.drop_last()).push(seq![44u8, 32u8]).push(decimal(xs.last() as int))
    }
}

/// The pieces of the line that dumps `xs`: `[`, the entries, `]`, and a line
/// break.
pub open spec fn dump_pieces(xs: Seq<i32>) -> Seq<Seq<u8>> {
    (seq![seq![91u8]] + entry_pieces(xs)).push(seq![93u8]).push(line_break())
}

/// How far the demonstration has come: the growable buffer, all that was
/// sent out, and the fatal condition if one was met.
pub struct Progress {
    pub xs: Seq<i32>,
    pub output: Seq<Signal>,
    pub fatal: Option<Fatal>,
}

pub open spec fn progress(xs: Seq<i32>, output: Seq<Signal>, fatal: Option<Fatal>) -> Progress {
    Progress { xs, output, fatal }
}

/// In an empty text buffer the line `i <i>` always fits, and the buffer then
/// holds exactly that line.
pub proof fn lemma_index_line_fits(i: i32)
    ensures
        put_all(begin(Seq::empty()), index_pieces(i)).whole,
        put_all(begin(Seq::empty()), index_pieces(i)).text == index_line(i),
        index_line(i).len() <= 15,
{
    let a = seq![105u8, 32u8];
    let pieces = index_pieces(i);
    lemma_decimal_len(i as int);
    assert(pieces.drop_last() =~= seq![a, decimal(i as int)]);
    assert(pieces.drop_last().drop_last() =~= seq![a]);
    assert(pieces.drop_last().drop_last().drop_last() =~= Seq::<Seq<u8>>::empty());
    reveal_with_fuel(joined, 4);
    assert(joined(pieces) =~= index_line(i));
    lemma_put_all_whole(begin(Seq::empty()), pieces);
    assert(Seq::<u8>::empty() + joined(pieces) =~= joined(pieces));
}

/// A quotient text that leaves room for the line break gives the text and the
/// line break.
pub proof fn lemma_quotient_line_whole(quotient: Seq<u8>)
    requires
        quotient.len() + 2 <= crate::text::CAPACITY,
    ensures
        quotient_line(quotient) == quotient + line_break(),
{
    let pieces = quotient_pieces(quotient);
    assert(pieces.drop_last() =~= seq![quotient]);
    assert(pieces.drop_last().drop_last() =~= Seq::<Seq<u8>>::empty());
    reveal_with_fuel(joined, 3);
    assert(joined(pieces) =~= quotient + line_break());
    lemma_put_all_whole(begin(Seq::empty()), pieces);
    assert(Seq::<u8>::empty() + joined(pieces) =~= joined(pieces));
}

/// One round of the loop. The values `i`, `-3 * i` and `i` are appended to the
/// growable buffer; the line `i <i>` is sent; the quotient line is sent as far
/// as the text buffer holds it; and the last element is taken off the
/// growable buffer again. Each line is sent once.
pub open spec fn after_iteration(s: Progress, i: i32, quotient: Seq<u8>) -> Progress {
    if s.fatal is Some {
        s
    } else {
        progress(
            s.xs.push(i).push((-3 * i) as i32),
            s.output + emitted(index_line(i)) + emitted(quotient_line(quotient)),
            None,
        )
    }
}

/// Compares what was taken off the growable buffer with what was put there
/// last.
pub fn check_popped(popped: Option<i32>, i: i32) -> (r: Result<(), Fatal>)
    ensures
        r == if popped == Some(i) {
            Ok::<(), Fatal>(())
        } else {
            Err::<(), Fatal>(Fatal::LogicViolation)
        },
{
    match popped {
        Some(x) => {
            if x != i {
                Err(Fatal::LogicViolation)
            } else {
                Ok(())
            }
        },
        None => Err(Fatal::LogicViolation),
    }
}

/// One round of the loop for the value `i`, with the text of `10 / i`. Each
/// of the two lines is staged in the emptied text buffer and sent once, and
/// the buffer is left empty. A line `i <i>` that did not fit would be fatal,
/// and so would a wrong element coming off the growable buffer; neither
/// happens.
pub fn iteration(
    i: i32,
    quotient: &str,
    xs: &mut Vec<i32>,
    buf: &mut TextBuffer,
    console: &mut Console,
) -> (r: Result<(), Fatal>)
    requires
        i32::MIN <= -3 * i <= i32::MAX,
    ensures
        r is Ok,
        final(buf)@ == Seq::<u8>::empty(),
        progress(final(xs)@, final(console)@, None) == after_iteration(
            progress(old(xs)@, old(console)@, None),
            i,
            quotient.spec_bytes(),
        ),
{
    xs.push(i);
    xs.push(-3 * i);
    xs.push(i);
    buf.clear();
    let ghost st = begin(buf@);
    let ghost done: Seq<Seq<u8>> = Seq::empty();
    proof {
        reveal_strlit("i ");
        is_ascii_spec_bytes("i ");
        assert("i ".spec_bytes() =~= seq![105u8, 32u8]);
    }
    let w = buf.stage_str(true, "i ");
    proof {
        lemma_put_all_push(st, done, seq![105u8, 32u8]);
        done = done.push(seq![105u8, 32u8]);
    }
    let w = buf.stage_i32(w, i);
    proof {
        lemma_put_all_push(st, done, decimal(i as int));
        done = done.push(decimal(i as int));
    }
    let w = buf.stage_line_break(w);
    proof {
        lemma_put_all_push(st, done, line_break());
        done = done.push(line_break());
        assert(done =~= index_pieces(i));
        lemma_index_line_fits(i);
    }
    if !w {
        return Err(Fatal::FormatOverflow);
    }
    console.write(buf.as_bytes());
    buf.clear();
    let ghost st = begin(buf@);
    let ghost done: Seq<Seq<u8>> = Seq::empty();
    let w = buf.stage_str(true, quotient);
    proof {
        lemma_put_all_push(st, done, quotient.spec_bytes());
        done = done.push(quotient.spec_bytes());
    }
    let _ = buf.stage_line_break(w);
    proof {
        lemma_put_all_push(st, done, line_break());
        done = done.push(line_break());
        assert(done =~= quotient_pieces(quotient.spec_bytes()));
    }
    console.write(buf.as_bytes());
    buf.clear();
    let popped = xs.pop();
    assert(xs@ =~= old(xs)@.push(i).push((-3 * i) as i32));
    check_popped(popped, i)
}

/// The dump of a growable buffer that holds `xs`: the line is staged in an
/// empty text buffer; if it does not fit, that is fatal and nothing is sent;
/// otherwise it is sent once, and the demonstration ends as designed.
pub open spec fn after_dump(s: Progress, xs: Seq<i32>) -> Progress {
    let line = put_all(begin(Seq::empty()), dump_pieces(xs));
    if s.fatal is Some {
        s
    } else if !line.whole {
        progress(xs, s.output, Some(Fatal::FormatOverflow))
    } else {
        progress(xs, s.output + emitted(line.text), Some(Fatal::IntentionalTermination))
    }
}

/// Stages the dump of `xs` in the emptied text buffer and sends it once,
/// unless the line does not fit. The buffer is left empty after a line that
/// was sent, and with the pieces that fitted after one that was not.
pub fn dump(xs: &Vec<i32>, buf: &mut TextBuffer, console: &mut Console) -> (fatal: Fatal)
    ensures
        final(buf).wf(),
        progress(xs@, final(console)@, Some(fatal)) == after_dump(
            progress(xs@, old(console)@, None),
            xs@,
        ),
        final(buf)@ == if fatal == Fatal::IntentionalTermination {
            Seq::<u8>::empty()
        } else {
            put_all(begin(Seq::empty()), dump_pieces(xs@)).text
        },
{
    buf.clear();
    let ghost st = begin(buf@);
    let ghost done: Seq<Seq<u8>> = Seq::empty();
    proof {
        reveal_strlit("[");
        reveal_strlit(", ");
        reveal_strlit("]");
        is_ascii_spec_bytes("[");
        is_ascii_spec_bytes(", ");
        is_ascii_spec_bytes("]");
        assert("[".spec_bytes() =~= seq![91u8]);
        assert(", ".spec_bytes() =~= seq![44u8, 32u8]);
        assert("]".spec_bytes() =~= seq![93u8]);
    }
    let mut w = buf.stage_str(true, "[");
    proof {
        lemma_put_all_push(st, done, seq![91u8]);
        done = done.push(seq![91u8]);
        assert(done =~= seq![seq![91u8]] + entry_pieces(xs@.subrange(0, 0)));
    }
    let mut k: usize = 0;
    while k < xs.len()
        invariant
            k <= xs.len(),
            buf.wf(),
            done == seq![seq![91u8]] + entry_pieces(xs@.subrange(0, k as int)),
            (Staging { text: buf@, whole: w }) == put_all(st, done),
            ", ".spec_bytes() == seq![44u8, 32u8],
        decreases xs.len() - k,
    {
        assert(xs@.subrange(0, k + 1).drop_last() =~= xs@.subrange(0, k as int));
        if k > 0 {
            w = buf.stage_str(w, ", ");
            proof {
                lemma_put_all_push(st, done, seq![44u8, 32u8]);
                done = done.push(seq![44u8, 32u8]);
            }
        }
        w = buf.stage_i32(w, xs[k]);
        proof {
            lemma_put_all_push(st, done, decimal(xs@[k as int] as int));
            done = done.push(decimal(xs@[k as int] as int));
            assert(done =~= seq![seq![91u8]] + entry_pieces(xs@.subrange(0, k + 1)));
        }
        k = k + 1;
    }
    assert(xs@.subrange(0, k as int) =~= xs@);
    w = buf.stage_str(w, "]");
    proof {
        lemma_put_all_push(st, done, seq![93u8]);
        done = done.push(seq![93u8]);
    }
    w = buf.stage_line_break(w);
    proof {
        lemma_put_all_push(st, done, line_break());
        done = done.push(line_break());
        assert(done =~= dump_pieces(xs@));
    }
    if !w {
        return Fatal::FormatOverflow;
    }
    console.write(buf.as_bytes());
    buf.clear();
    Fatal::IntentionalTermination
}

/// The elements of `xs` in ascending order.
pub open spec fn in_order(xs: Seq<i32>) -> Seq<i32> {
    xs.sort_by(at_most())
}

/// Putting elements in ascending order keeps them all and leaves them
/// sorted.
pub proof fn lemma_in_order(xs: Seq<i32>)
    ensures
        sorted(in_order(xs)),
        in_order(xs).to_multiset() == xs.to_multiset(),
{
    assert(vstd::relations::total_ordering(at_most()));
    xs.lemma_sort_by_ensures(at_most());
    let r = in_order(xs);
    assert(vstd::relations::sorted_by(r, at_most()));
    assert forall|i: int, j: int| 0 <= i <= j < r.len() implies r[i] <= r[j] by {
        if i < j {
            assert(at_most()(r[i], r[j]));
        }
    }
}

/// The text of each quotient as bytes.
pub open spec fn texts(quotients: Seq<String>) -> Seq<Seq<u8>> {
    Seq::new(quotients.len(), |k: int| encode_utf8(quotients[k]@))
}

/// The first `rounds` rounds of the loop, with the loop variable counting up
/// from `FIRST`.
pub open spec fn after_rounds(s: Progress, rounds: nat, quotients: Seq<Seq<u8>>) -> Progress
    decreases rounds,
{
    if rounds == 0 {
        s
    } else {
        after_iteration(
            after_rounds(s, (rounds - 1) as nat, quotients),
            (FIRST + rounds - 1) as i32,
            quotients[rounds - 1],
        )
    }
}

/// The whole demonstration, from a console that holds `before`: the banner,
/// the rounds for `FIRST` to `LAST`, then the growable buffer sorted and
/// dumped.
pub open spec fn demonstration(before: Seq<Signal>, quotients: Seq<Seq<u8>>) -> Progress {
    let start = progress(Seq::empty(), before + emitted(banner()), None);
    let s = after_rounds(start, (LAST - FIRST + 1) as nat, quotients);
    after_dump(s, in_order(s.xs))
}

/// The entry routine. `quotients` holds the text of `10 / i` for each value
/// `i` of the loop variable, in order. Sends to `console` the banner, two
/// lines for each round and the dump of the sorted buffer, each once, and
/// returns the fatal condition in which the demonstration ends, which is the
/// designed one.
pub fn rust_main(quotients: &Vec<String>, console: &mut Console) -> (fatal: Fatal)
    requires
        quotients@.len() == LAST - FIRST + 1,
    ensures
        fatal == Fatal::IntentionalTermination,
        final(console)@ == old(console)@ + emitted(
            expected_output(texts(quotients@)[0], texts(quotients@)[1]),
        ),
        final(console)@ == demonstration(old(console)@, texts(quotients@)).output,
        Some(fatal) == demonstration(old(console)@, texts(quotients@)).fatal,
{
    proof {
        reveal_strlit("Rust\r\n");
        is_ascii_spec_bytes("Rust\r\n");
        assert("Rust\r\n".spec_bytes() =~= banner());
        lemma_whole_run(old(console)@, texts(quotients@));
    }
    print("Rust\r\n", console);
    let mut buf = TextBuffer::new();
    let mut xs: Vec<i32> = Vec::new();
    let ghost start = progress(xs@, console@, None);
    let mut i: i32 = FIRST;
    while i <= LAST
        invariant
            FIRST <= i <= LAST + 1,
            quotients@.len() == LAST - FIRST + 1,
            progress(xs@, console@, None) == after_rounds(
                start,
                (i - FIRST) as nat,
                texts(quotients@),
            ),
        decreases LAST + 1 - i,
    {
        let quotient = quotients[(i - FIRST) as usize].as_str();
        match iteration(i, quotient, &mut xs, &mut buf, console) {
            Ok(()) => {},
            Err(fatal) => {
                return fatal;
            },
        }
        i = i + 1;
    }
    sort(&mut xs);
    proof {
        let s = after_rounds(start, (LAST - FIRST + 1) as nat, texts(quotients@));
        lemma_in_order(s.xs);
        lemma_sorted_same(xs@, in_order(s.xs));
    }
    dump(&xs, &mut buf, console)
}

/// In every round the element taken off the growable buffer is the value of
/// the loop variable that was put there last, whatever the buffer held
/// before.
pub proof fn lemma_popped_is_pushed(xs: Seq<i32>, i: i32)
    ensures
        xs.push(i).push((-3 * i) as i32).push(i).last() == i,
        xs.push(i).push((-3 * i) as i32).push(i).drop_last() == xs.push(i).push((-3 * i) as i32),
{
    assert(xs.push(i).push((-3 * i) as i32).push(i).drop_last() =~= xs.push(i).push(
        (-3 * i) as i32,
    ));
}

/// No number of rounds ends in a fatal condition: neither line of a round can
/// fail, and the element taken off is always the one put there.
pub proof fn lemma_rounds_never_fail(s: Progress, rounds: nat, quotients: Seq<Seq<u8>>)
    requires
        s.fatal is None,
    ensures
        after_rounds(s, rounds, quotients).fatal is None,
    decreases rounds,
{
    if rounds > 0 {
        lemma_rounds_never_fail(s, (rounds - 1) as nat, quotients);
    }
}

/// Everything is sent in order: what the console held before the
/// demonstration is still the beginning of what it holds after it.
pub proof fn lemma_output_extends(before: Seq<Signal>, quotients: Seq<Seq<u8>>)
    ensures
        before.is_prefix_of(demonstration(before, quotients).output),
{
    let start = progress(Seq::empty(), before + emitted(banner()), None);
    let rounds = (LAST - FIRST + 1) as nat;
    lemma_rounds_extend(start, rounds, quotients);
    let s = after_rounds(start, rounds, quotients);
    assert(before.is_prefix_of(start.output));
    assert(s.output.is_prefix_of(after_dump(s, in_order(s.xs)).output));
}

/// Rounds only add to what was sent.
pub proof fn lemma_rounds_extend(s: Progress, rounds: nat, quotients: Seq<Seq<u8>>)
    ensures
        s.output.is_prefix_of(after_rounds(s, rounds, quotients).output),
    decreases rounds,
{
    if rounds > 0 {
        lemma_rounds_extend(s, (rounds - 1) as nat, quotients);
        let before = after_rounds(s, (rounds - 1) as nat, quotients);
        assert(before.output.is_prefix_of(
            after_iteration(before, (FIRST + rounds - 1) as i32, quotients[rounds - 1]).output,
        ));
    }
}

} // verus!
