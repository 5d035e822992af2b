//! The bounded buffer in which output is staged before it is emitted.

use vstd::prelude::*;
use vstd::string::*;
use vstd::utf8::*;
use vstd::array::*;

verus! {

/// Number of bytes the text buffer can hold.
pub const CAPACITY: usize = 128;

#[verifier::external_type_specification]
#[verifier::external_body]
pub struct ExHeaplessString<const N: usize>(heapless::String<N>);

/// The bytes held by a `heapless::String`, in order.
pub uninterp spec fn text_of(s: heapless::String<128>) -> Seq<u8>;

/// `heapless::String::new`: the new string holds no bytes.
#[verifier::external_body]
fn string_new() -> (s: heapless::String<128>)
    ensures
        text_of(s) == Seq::<u8>::empty(),
{
    heapless::String::new()
}

/// `heapless::String::push_str`: the UTF-8 bytes of `piece` are appended when
/// they fit in the capacity that is left; otherwise the string keeps its
/// bytes and the call fails.
#[verifier::external_body]
fn string_push_str(s: &mut heapless::String<128>, piece: &str) -> (r: Result<(), ()>)
    ensures
        r is Ok <==> text_of(*old(s)).len() + piece.spec_bytes().len() <= 128,
        r is Ok ==> text_of(*final(s)) == text_of(*old(s)) + piece.spec_bytes(),
        r is Err ==> text_of(*final(s)) == text_of(*old(s)),
{
    s.push_str(piece)
}

/// `heapless::String::push`: the UTF-8 bytes of `c` are appended when they
/// fit in the capacity that is left; otherwise the string keeps its bytes and
/// the call fails.
#[verifier::external_body]
fn string_push(s: &mut heapless::String<128>, c: char) -> (r: Result<(), ()>)
    ensures
        r is Ok <==> text_of(*old(s)).len() + encode_utf8(seq![c]).len() <= 128,
        r is Ok ==> text_of(*final(s)) == text_of(*old(s)) + encode_utf8(seq![c]),
        r is Err ==> text_of(*final(s)) == text_of(*old(s)),
{
    s.push(c)
}

/// `heapless::String::clear`: the string holds no bytes afterwards.
#[verifier::external_body]
fn string_clear(s: &mut heapless::String<128>)
    ensures
        text_of(*final(s)) == Seq::<u8>::empty(),
{
    s.clear()
}

/// `heapless::String::as_str` followed by `str::as_bytes`: the bytes held.
#[verifier::external_body]
fn string_bytes(s: &heapless::String<128>) -> (b: &[u8])
    ensures
        b@ == text_of(*s),
{
    s.as_str().as_bytes()
}

/// The decimal digits of `n` as ASCII bytes, most significant first.
pub open spec fn digits(n: nat) -> Seq<u8>
    decreases n,
{
    if n < 10 {
        seq![(48 + n) as u8]
    } else {
        digits(n / 10).push((48 + n % 10) as u8)
    }
}

/// The decimal text of `n`: a minus sign for a negative number, then the
/// digits of its magnitude.
pub open spec fn decimal(n: int) -> Seq<u8> {
    if n < 0 {
        seq![45u8] + digits((-n) as nat)
    } else {
        digits(n as nat)
    }
}

/// A sign, when there is one, then the digits of the magnitude.
spec fn number_text(negative: bool, magnitude: nat) -> Seq<u8> {
    if negative {
        seq![45u8] + digits(magnitude)
    } else {
        digits(magnitude)
    }
}

/// The digits of the part of a number that is still to be split off.
spec fn leading(m: nat) -> Seq<u8> {
    if m == 0 {
        Seq::empty()
    } else {
        digits(m)
    }
}

proof fn lemma_digits_step(m: nat)
    ensures
        digits(m) =~= leading(m / 10).push((48 + m % 10) as u8),
{
}

/// `bound` is ten to the power `k`.
pub open spec fn power_of_ten(bound: nat, k: nat) -> bool
    decreases k,
{
    if k == 0 {
        bound == 1
    } else {
        bound % 10 == 0 && power_of_ten(bound / 10, (k - 1) as nat)
    }
}

/// A number below ten to the power `k` has at most `k` digits.
pub proof fn lemma_digits_len(n: nat, k: nat, bound: nat)
    requires
        k >= 1,
        power_of_ten(bound, k),
        n < bound,
    ensures
        1 <= digits(n).len() <= k,
    decreases k,
{
    reveal_with_fuel(power_of_ten, 2);
    if n >= 10 {
        lemma_digits_len(n / 10, (k - 1) as nat, bound / 10);
    }
}

/// The decimal text of a 32-bit number has at most eleven bytes.
pub proof fn lemma_decimal_len(n: int)
    requires
        -0x8000_0000 <= n <= 0xffff_ffff,
    ensures
        1 <= decimal(n).len() <= 11,
{
    reveal_with_fuel(power_of_ten, 11);
    assert(power_of_ten(10000000000, 10));
    if n < 0 {
        lemma_digits_len((-n) as nat, 10, 10000000000);
    } else {
        lemma_digits_len(n as nat, 10, 10000000000);
    }
}

/// A line while it is being staged: the bytes in the buffer, and whether
/// every piece written so far went in.
pub struct Staging {
    pub text: Seq<u8>,
    pub whole: bool,
}

/// The start of a line in a buffer that holds `text`.
pub open spec fn begin(text: Seq<u8>) -> Staging {
    Staging { text, whole: true }
}

/// Writing one piece: it goes in whole if the line is whole so far and the
/// piece fits; otherwise the bytes stay and the line is no longer whole.
pub open spec fn put(st: Staging, piece: Seq<u8>) -> Staging {
    if st.whole && st.text.len() + piece.len() <= CAPACITY {
        Staging { text: st.text + piece, whole: true }
    } else {
        Staging { text: st.text, whole: false }
    }
}

/// Writing the pieces of a line in order.
pub open spec fn put_all(st: Staging, pieces: Seq<Seq<u8>>) -> Staging
    decreases pieces.len(),
{
    if pieces.len() == 0 {
        st
    } else {
        put(put_all(st, pieces.drop_last()), pieces.last())
    }
}

/// The pieces of a line one after the other.
pub open spec fn joined(pieces: Seq<Seq<u8>>) -> Seq<u8>
    decreases pieces.len(),
{
    if pieces.len() == 0 {
        Seq::empty()
    } else {
        joined(pieces.drop_last()) + pieces.last()
    }
}

/// Writing one more piece after some others.
pub proof fn lemma_put_all_push(st: Staging, pieces: Seq<Seq<u8>>, piece: Seq<u8>)
    ensures
        put_all(st, pieces.push(piece)) == put(put_all(st, pieces), piece),
{
    assert(pieces.push(piece).drop_last() =~= pieces);
}

/// A line stays whole exactly when all its pieces together fit behind what
/// the buffer holds, and the buffer then holds them all.
pub proof fn lemma_put_all_whole(st: Staging, pieces: Seq<Seq<u8>>)
    requires
        st.whole,
        st.text.len() <= CAPACITY,
    ensures
        put_all(st, pieces).whole <==> st.text.len() + joined(pieces).len() <= CAPACITY,
        put_all(st, pieces).whole ==> put_all(st, pieces).text == st.text + joined(pieces),
        put_all(st, pieces).text.len() <= CAPACITY,
    decreases pieces.len(),
{
    if pieces.len() > 0 {
        lemma_put_all_whole(st, pieces.drop_last());
        let before = put_all(st, pieces.drop_last());
        if before.whole && before.text.len() + pieces.last().len() <= CAPACITY {
            assert(st.text + joined(pieces.drop_last()) + pieces.last() =~= st.text + joined(
                pieces,
            ));
        }
    } else {
        assert(st.text + joined(pieces) =~= st.text);
    }
}

/// The bytes of a line break: carriage return, line feed.
pub open spec fn line_break() -> Seq<u8> {
    seq![13u8, 10u8]
}

/// Failure to stage text: the buffer cannot hold it.
#[derive(Clone, Copy, Debug, PartialEq, Eq, Structural)]
pub struct FormatOverflow;

/// A text buffer of at most `CAPACITY` bytes.
pub struct TextBuffer {
    inner: heapless::String<128>,
}

impl View for TextBuffer {
    type V = Seq<u8>;

    closed spec fn view(&self) -> Seq<u8> {
        text_of(self.inner)
    }
}

impl TextBuffer {
    /// The buffer never holds more than its capacity.
    pub open spec fn wf(&self) -> bool {
        self@.len() <= CAPACITY
    }

    pub fn new() -> (buf: TextBuffer)
        ensures
            buf.wf(),
            buf@ == Seq::<u8>::empty(),
    {
        TextBuffer { inner: string_new() }
    }

    /// Appends the bytes of `piece`, all of them or none.
    pub fn write_str(&mut self, piece: &str) -> (r: Result<(), FormatOverflow>)
        requires
            old(self).wf(),
        ensures
            final(self).wf(),
            r is Ok <==> old(self)@.len() + piece.spec_bytes().len() <= CAPACITY,
            r is Ok ==> final(self)@ == old(self)@ + piece.spec_bytes(),
            r is Err ==> final(self)@ == old(self)@,
    {
        match string_push_str(&mut self.inner, piece) {
            Ok(()) => Ok(()),
            Err(()) => Err(FormatOverflow),
        }
    }

    /// Appends one ASCII byte; there must be room for it.
    fn push_ascii(&mut self, b: u8)
        requires
            old(self).wf(),
            b < 128,
            old(self)@.len() < CAPACITY,
        ensures
            final(self).wf(),
            final(self)@ == old(self)@.push(b),
    {
        let c = b as char;
        proof {
            assert(is_ascii_chars(seq![c]));
            is_ascii_chars_encode_utf8(seq![c]);
            assert(seq![c][0] == c);
            assert(encode_utf8(seq![c]) =~= seq![b]);
        }
        let r = string_push(&mut self.inner, c);
        assert(r is Ok);
        assert(self@ =~= old(self)@.push(b));
    }

    /// Appends a sign and the decimal digits of `magnitude`, all of it or
    /// nothing.
    fn write_number(&mut self, negative: bool, magnitude: u64) -> (r: Result<(), FormatOverflow>)
        requires
            old(self).wf(),
        ensures
            final(self).wf(),
            r is Ok <==> old(self)@.len() + number_text(negative, magnitude as nat).len()
                <= CAPACITY,
            r is Ok ==> final(self)@ == old(self)@ + number_text(negative, magnitude as nat),
            r is Err ==> final(self)@ == old(self)@,
    {
        let mut out: [u8; 20] = [0u8; 20];
        let mut pos: usize = 19;
        let mut m: u64 = magnitude / 10;
        out[pos] = 48 + (magnitude % 10) as u8;
        let ghost mut bound: nat = 10000000000000000000;
        proof {
            lemma_digits_step(magnitude as nat);
            reveal_with_fuel(power_of_ten, 20);
            assert(power_of_ten(bound, 19));
            assert(digits(magnitude as nat) =~= leading(m as nat) + out@.subrange(19, 20));
        }
        while m > 0
            invariant
                0 <= pos <= 19,
                m < bound,
                power_of_ten(bound, pos as nat),
                digits(magnitude as nat) =~= leading(m as nat) + out@.subrange(pos as int, 20),
                forall|j: int| pos <= j < 20 ==> #[trigger] out@[j] < 128,
            decreases m,
        {
            proof {
                lemma_digits_step(m as nat);
                reveal_with_fuel(power_of_ten, 2);
            }
            let ghost before = out@;
            pos = pos - 1;
            out[pos] = 48 + (m % 10) as u8;
            proof {
                assert(out@.subrange(pos as int, 20) =~= seq![(48 + m % 10) as u8]
                    + before.subrange(pos + 1, 20));
                bound = bound / 10;
            }
            m = m / 10;
        }
        let count: usize = 20 - pos;
        let sign: usize = if negative { 1 } else { 0 };
        let used: usize = self.as_bytes().len();
        assert(digits(magnitude as nat) =~= out@.subrange(pos as int, 20));
        if used + sign + count > CAPACITY {
            return Err(FormatOverflow);
        }
        if negative {
            self.push_ascii(45);
        }
        let ghost start = self@;
        let mut k: usize = pos;
        while k < 20
            invariant
                pos <= k <= 20,
                self.wf(),
                self@ =~= start + out@.subrange(pos as int, k as int),
                start.len() + (20 - pos) <= CAPACITY,
                forall|j: int| pos <= j < 20 ==> #[trigger] out@[j] < 128,
            decreases 20 - k,
        {
            self.push_ascii(out[k]);
            proof {
                assert(out@.subrange(pos as int, k + 1) =~= out@.subrange(pos as int, k as int).push(
                    out@[k as int],
                ));
            }
            k = k + 1;
        }
        assert(self@ =~= old(self)@ + number_text(negative, magnitude as nat));
        Ok(())
    }

    /// Appends the decimal text of `n`, all of it or nothing.
    pub fn write_i32(&mut self, n: i32) -> (r: Result<(), FormatOverflow>)
        requires
            old(self).wf(),
        ensures
            final(self).wf(),
            r is Ok <==> old(self)@.len() + decimal(n as int).len() <= CAPACITY,
            r is Ok ==> final(self)@ == old(self)@ + decimal(n as int),
            r is Err ==> final(self)@ == old(self)@,
    {
        let wide: i64 = n as i64;
        if wide < 0 {
            self.write_number(true, (0 - wide) as u64)
        } else {
            self.write_number(false, wide as u64)
        }
    }

    /// Appends the decimal text of `n`, all of it or nothing.
    pub fn write_u32(&mut self, n: u32) -> (r: Result<(), FormatOverflow>)
        requires
            old(self).wf(),
        ensures
            final(self).wf(),
            r is Ok <==> old(self)@.len() + decimal(n as int).len() <= CAPACITY,
            r is Ok ==> final(self)@ == old(self)@ + decimal(n as int),
            r is Err ==> final(self)@ == old(self)@,
    {
        self.write_number(false, n as u64)
    }

    /// Writes a piece of a line, unless an earlier piece of it did not fit.
    pub fn stage_str(&mut self, whole: bool, piece: &str) -> (r: bool)
        requires
            old(self).wf(),
        ensures
            final(self).wf(),
            (Staging { text: final(self)@, whole: r }) == put(
                Staging { text: old(self)@, whole },
                piece.spec_bytes(),
            ),
    {
        whole && self.write_str(piece).is_ok()
    }

    /// Writes a number as a piece of a line, unless an earlier piece of it
    /// did not fit.
    pub fn stage_i32(&mut self, whole: bool, n: i32) -> (r: bool)
        requires
            old(self).wf(),
        ensures
            final(self).wf(),
            (Staging { text: final(self)@, whole: r }) == put(
                Staging { text: old(self)@, whole },
                decimal(n as int),
            ),
    {
        whole && self.write_i32(n).is_ok()
    }

    /// Writes a number as a piece of a line, unless an earlier piece of it
    /// did not fit.
    pub fn stage_u32(&mut self, whole: bool, n: u32) -> (r: bool)
        requires
            old(self).wf(),
        ensures
            final(self).wf(),
            (Staging { text: final(self)@, whole: r }) == put(
                Staging { text: old(self)@, whole },
                decimal(n as int),
            ),
    {
        whole && self.write_u32(n).is_ok()
    }

    /// Ends a line with a line break, unless an earlier piece of it did not
    /// fit.
    pub fn stage_line_break(&mut self, whole: bool) -> (r: bool)
        requires
            old(self).wf(),
        ensures
            final(self).wf(),
            (Staging { text: final(self)@, whole: r }) == put(
                Staging { text: old(self)@, whole },
                line_break(),
            ),
    {
        proof {
            reveal_strlit("\r\n");
            is_ascii_spec_bytes("\r\n");
            assert("\r\n".spec_bytes() =~= line_break());
        }
        self.stage_str(whole, "\r\n")
    }

    pub fn clear(&mut self)
        ensures
            final(self).wf(),
            final(self)@ == Seq::<u8>::empty(),
    {
        string_clear(&mut self.inner);
    }

    pub fn as_bytes(&self) -> (b: &[u8])
        ensures
            b@ == self@,
    {
        string_bytes(&self.inner)
    }
}

} // verus!
