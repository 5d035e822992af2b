//! What the program sends to the outside: bytes for the character sink and
//! invocations of the fault trigger, kept in the order in which they occur.

use vstd::prelude::*;
use vstd::string::*;

verus! {

/// One interaction with the outside.
#[derive(Clone, Copy, Debug, PartialEq, Eq, Structural)]
pub enum Signal {
    /// One byte handed to the character sink.
    Byte(u8),
    /// One invocation of the fault trigger.
    Fault,
}

/// The byte announcing a fatal condition, `!`.
pub const SENTINEL: u8 = 33;

/// The signals that emit `bytes`, one after the other.
pub open spec fn emitted(bytes: Seq<u8>) -> Seq<Signal> {
    Seq::new(bytes.len(), |i: int| Signal::Byte(bytes[i]))
}

/// The record of all signals sent so far.
pub struct Console {
    log: Vec<Signal>,
}

impl View for Console {
    type V = Seq<Signal>;

    closed spec fn view(&self) -> Seq<Signal> {
        self.log@
    }
}

impl Console {
    pub fn new() -> (console: Console)
        ensures
            console@ == Seq::<Signal>::empty(),
    {
        Console { log: Vec::new() }
    }

    /// A console that holds nothing and has room for `capacity` signals, so
    /// that recording that many asks for no more memory.
    pub fn with_capacity(capacity: usize) -> (console: Console)
        ensures
            console@ == Seq::<Signal>::empty(),
    {
        Console { log: Vec::with_capacity(capacity) }
    }

    /// Forgets what was recorded and keeps the room.
    pub fn clear(&mut self)
        ensures
            final(self)@ == Seq::<Signal>::empty(),
    {
        self.log.clear();
    }

    /// Sends one byte to the character sink.
    pub fn putchar(&mut self, c: u8)
        ensures
            final(self)@ == old(self)@.push(Signal::Byte(c)),
    {
        self.log.push(Signal::Byte(c));
    }

    /// Sends `bytes` to the character sink, in order.
    pub fn write(&mut self, bytes: &[u8])
        ensures
            final(self)@ == old(self)@ + emitted(bytes@),
    {
        let mut i: usize = 0;
        while i < bytes.len()
            invariant
                i <= bytes.len(),
                self@ =~= old(self)@ + emitted(bytes@.subrange(0, i as int)),
            decreases bytes.len() - i,
        {
            self.putchar(bytes[i]);
            proof {
                assert(bytes@.subrange(0, i + 1) =~= bytes@.subrange(0, i as int).push(
                    bytes@[i as int],
                ));
            }
            i = i + 1;
        }
        assert(bytes@.subrange(0, i as int) =~= bytes@);
    }

    /// Invokes the fault trigger.
    pub fn crash(&mut self)
        ensures
            final(self)@ == old(self)@.push(Signal::Fault),
    {
        self.log.push(Signal::Fault);
    }

    /// Number of signals recorded.
    pub fn len(&self) -> (n: usize)
        ensures
            n == self@.len(),
    {
        self.log.len()
    }

    /// The signal at position `i`, if there is one.
    pub fn get(&self, i: usize) -> (s: Option<Signal>)
        ensures
            s == if i < self@.len() { Some(self@[i as int]) } else { None },
    {
        if i < self.log.len() {
            Some(self.log[i])
        } else {
            None
        }
    }
}

/// Sends the UTF-8 bytes of `s` to the character sink, in order.
pub fn print(s: &str, console: &mut Console)
    ensures
        final(console)@ == old(console)@ + emitted(s.spec_bytes()),
{
    console.write(s.as_bytes());
}

} // verus!
