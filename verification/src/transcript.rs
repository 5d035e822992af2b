//! The bytes that the demonstration sends.

use crate::console::{emitted, Signal};
use crate::demo::{
    after_dump, after_iteration, after_rounds, banner, demonstration, dump_pieces, entry_pieces,
    in_order, index_line, lemma_in_order, progress, quotient_line,
};
use crate::fatal::Fatal;
use crate::sort::{lemma_sorted_same, sorted};
use crate::text::{begin, decimal, digits, joined, lemma_put_all_whole, line_break};
use vstd::prelude::*;

verus! {

/// The bytes of `i 2` and a line break.
pub open spec fn first_index_line() -> Seq<u8> {
    seq![105u8, 32u8, 50u8, 13u8, 10u8]
}

/// The bytes of `i 3` and a line break.
pub open spec fn second_index_line() -> Seq<u8> {
    seq![105u8, 32u8, 51u8, 13u8, 10u8]
}

/// The bytes of `[-9, -6, 2, 3]` and a line break.
pub open spec fn dump_line() -> Seq<u8> {
    seq![
        91u8, 45u8, 57u8, 44u8, 32u8, 45u8, 54u8, 44u8, 32u8, 50u8, 44u8, 32u8, 51u8, 93u8, 13u8,
        10u8,
    ]
}

/// All bytes of a run, each line once: the banner; `i 2` and the first
/// quotient line; `i 3` and the second quotient line; and the dump.
pub open spec fn expected_output(first: Seq<u8>, second: Seq<u8>) -> Seq<u8> {
    banner() + first_index_line() + quotient_line(first) + second_index_line() + quotient_line(
        second,
    ) + dump_line()
}

/// The pieces of a line of two pieces, one after the other.
proof fn lemma_joined_two(a: Seq<u8>, b: Seq<u8>)
    ensures
        joined(seq![a, b]) =~= a + b,
{
    reveal_with_fuel(joined, 3);
    assert(seq![a, b].drop_last() =~= seq![a]);
    assert(seq![a].drop_last() =~= Seq::<Seq<u8>>::empty());
}

/// Joining the pieces of two lists in turn joins the pieces of both.
proof fn lemma_joined_concat(a: Seq<Seq<u8>>, b: Seq<Seq<u8>>)
    ensures
        joined(a + b) =~= joined(a) + joined(b),
    decreases b.len(),
{
    if b.len() == 0 {
        assert(a + b =~= a);
    } else {
        lemma_joined_concat(a, b.drop_last());
        assert((a + b).drop_last() =~= a + b.drop_last());
    }
}

/// The dump of the sorted buffer is the line `[-9, -6, 2, 3]`.
proof fn lemma_dump_line()
    ensures
        joined(dump_pieces(seq![-9i32, -6i32, 2i32, 3i32])) =~= dump_line(),
{
    let xs = seq![-9i32, -6i32, 2i32, 3i32];
    let comma = seq![44u8, 32u8];
    let x3 = xs.drop_last();
    let x2 = x3.drop_last();
    let x1 = x2.drop_last();
    assert(x3 =~= seq![-9i32, -6i32, 2i32]);
    assert(x2 =~= seq![-9i32, -6i32]);
    assert(x1 =~= seq![-9i32]);
    reveal_with_fuel(entry_pieces, 5);
    reveal_with_fuel(digits, 2);
    assert(decimal(-9) =~= seq![45u8, 57u8]);
    assert(decimal(-6) =~= seq![45u8, 54u8]);
    assert(decimal(2) =~= seq![50u8]);
    assert(decimal(3) =~= seq![51u8]);
    assert(entry_pieces(x1) =~= seq![decimal(-9)]);
    assert(entry_pieces(x2) =~= seq![decimal(-9), comma, decimal(-6)]);
    assert(entry_pieces(x3) =~= seq![decimal(-9), comma, decimal(-6), comma, decimal(2)]);
    let entries = entry_pieces(xs);
    assert(entries =~= seq![
        decimal(-9),
        comma,
        decimal(-6),
        comma,
        decimal(2),
        comma,
        decimal(3),
    ]);
    let e6 = entries.drop_last();
    let e5 = e6.drop_last();
    let e4 = e5.drop_last();
    let e3 = e4.drop_last();
    let e2 = e3.drop_last();
    let e1 = e2.drop_last();
    assert(e1.drop_last() =~= Seq::<Seq<u8>>::empty());
    reveal_with_fuel(joined, 8);
    assert(joined(entries) =~= decimal(-9) + comma + decimal(-6) + comma + decimal(2) + comma
        + decimal(3));
    let open = seq![seq![91u8]];
    assert(open.drop_last() =~= Seq::<Seq<u8>>::empty());
    assert(joined(open) =~= seq![91u8]);
    lemma_joined_concat(open, entries);
    let close = seq![seq![93u8], line_break()];
    lemma_joined_two(seq![93u8], line_break());
    lemma_joined_concat(open + entries, close);
    assert(dump_pieces(xs) =~= (open + entries) + close);
}

/// Sorting the elements that the rounds leave gives `-9, -6, 2, 3`.
pub proof fn lemma_sorted_elements()
    ensures
        in_order(seq![2i32, -6i32, 3i32, -9i32]) == seq![-9i32, -6i32, 2i32, 3i32],
{
    broadcast use vstd::seq_lib::group_to_multiset_ensures;
    broadcast use vstd::multiset::group_multiset_axioms;

    let xs = seq![2i32, -6i32, 3i32, -9i32];
    let ys = seq![-9i32, -6i32, 2i32, 3i32];
    let e = Seq::<i32>::empty();
    assert(xs =~= e.push(2i32).push(-6i32).push(3i32).push(-9i32));
    assert(ys =~= e.push(-9i32).push(-6i32).push(2i32).push(3i32));
    assert(xs.to_multiset() =~= ys.to_multiset());
    lemma_in_order(xs);
    assert(sorted(ys));
    lemma_sorted_same(in_order(xs), ys);
}

/// Whatever the quotient texts are, the demonstration sends exactly the
/// expected bytes, each line once, and ends as designed.
pub proof fn lemma_whole_run(before: Seq<Signal>, quotients: Seq<Seq<u8>>)
    ensures
        demonstration(before, quotients).output == before + emitted(
            expected_output(quotients[0], quotients[1]),
        ),
        demonstration(before, quotients).fatal == Some(Fatal::IntentionalTermination),
{
    let first = quotients[0];
    let second = quotients[1];
    let start = progress(Seq::empty(), before + emitted(banner()), None);
    reveal_with_fuel(after_rounds, 3);
    reveal_with_fuel(digits, 2);
    assert(decimal(2) =~= seq![50u8]);
    assert(decimal(3) =~= seq![51u8]);
    assert(index_line(2) =~= first_index_line());
    assert(index_line(3) =~= second_index_line());
    let s1 = after_rounds(start, 1, quotients);
    assert(s1 == after_iteration(start, 2, first));
    assert(s1.xs =~= seq![2i32, -6i32]);
    let s2 = after_rounds(start, 2, quotients);
    assert(s2 == after_iteration(s1, 3, second));
    assert(s2.xs =~= seq![2i32, -6i32, 3i32, -9i32]);
    lemma_sorted_elements();
    lemma_dump_line();
    let ordered = seq![-9i32, -6i32, 2i32, 3i32];
    lemma_put_all_whole(begin(Seq::empty()), dump_pieces(ordered));
    let end = demonstration(before, quotients);
    assert(end == after_dump(s2, ordered));
    assert(Seq::<u8>::empty() + dump_line() =~= dump_line());
    assert(end.output =~= s2.output + emitted(dump_line()));
    assert(end.output =~= before + emitted(expected_output(first, second)));
}

} // verus!
