//! The fill as a state machine: what a fill knows between two reads, what one
//! reply from the source does to it, and what a whole run of replies yields.

use vstd::prelude::*;

verus! {

/// The most interruptions one fill tolerates before it hands the interruption
/// back to its caller. It bounds the fill: every read brings the buffer closer
/// to full, ends the fill, or spends one of these.
pub const MAX_INTERRUPTS: u64 = 0xffff_ffff_ffff_ffff;

/// Why a fill failed.
#[derive(Debug, Clone, PartialEq, Eq)]
pub enum FillError<E> {
    /// Some bytes arrived, then the source ended before the buffer was full.
    UnexpectedEof,
    /// The source reported this error.
    Source(E),
}

/// What a fill knows while it still wants to read: the buffer holds `len`
/// bytes, the first `filled` of which have arrived, and `retries_left` more
/// interruptions are tolerated.
#[derive(Debug, Clone, Copy, PartialEq, Eq)]
pub struct Progress {
    pub len: usize,
    pub filled: usize,
    pub retries_left: u64,
}

/// What a fill does next.
#[derive(Debug, PartialEq, Eq)]
pub enum Next<E> {
    /// Read again into the part of the buffer that is still empty.
    Read(Progress),
    /// Stop, with this result.
    Done(Result<bool, FillError<E>>),
}

/// One reply of the source, as the fill saw it: `Data` holds the bytes
/// delivered (none at all means end of stream), `Interrupted` a transient
/// error, `Failed` any other error.
pub enum Event<E> {
    Data(Seq<u8>),
    Interrupted(E),
    Failed(E),
}

impl Progress {
    /// The fill still has room to read into.
    pub open spec fn valid(self) -> bool {
        self.filled < self.len
    }

    pub open spec fn remaining(self) -> nat {
        (self.len - self.filled) as nat
    }
}

/// How a fill of `len` bytes begins.
pub open spec fn begin_spec<E>(len: nat) -> Next<E> {
    if len == 0 {
        Next::Done(Ok(true))
    } else {
        Next::Read(Progress { len: len as usize, filled: 0, retries_left: MAX_INTERRUPTS })
    }
}

/// What a read that delivered `n` bytes does to the fill.
pub open spec fn after_read_spec<E>(p: Progress, n: nat) -> Next<E> {
    if n == 0 {
        if p.filled > 0 {
            Next::Done(Err(FillError::UnexpectedEof))
        } else {
            Next::Done(Ok(false))
        }
    } else if p.filled + n == p.len {
        Next::Done(Ok(true))
    } else {
        Next::Read(Progress { filled: (p.filled + n) as usize, ..p })
    }
}

/// What an interrupted read does to the fill.
pub open spec fn after_interrupt_spec<E>(p: Progress, e: E) -> Next<E> {
    if p.retries_left == 0 {
        Next::Done(Err(FillError::Source(e)))
    } else {
        Next::Read(Progress { retries_left: (p.retries_left - 1) as u64, ..p })
    }
}

/// What one reply does to the fill.
pub open spec fn step<E>(p: Progress, ev: Event<E>) -> Next<E> {
    match ev {
        Event::Data(d) => after_read_spec(p, d.len()),
        Event::Interrupted(e) => after_interrupt_spec(p, e),
        Event::Failed(e) => Next::Done(Err(FillError::Source(e))),
    }
}

/// A reply that the source may give to a fill in state `p`: a read delivers
/// at most as many bytes as there is room for.
pub open spec fn possible<E>(p: Progress, ev: Event<E>) -> bool {
    match ev {
        Event::Data(d) => d.len() <= p.remaining(),
        _ => true,
    }
}

/// The result of a fill in state `p` that receives exactly the replies `t`,
/// one per read, and stops after the last; `None` where `t` is not such a run.
pub open spec fn run<E>(p: Progress, t: Seq<Event<E>>) -> Option<Result<bool, FillError<E>>>
    decreases t.len(),
{
    if t.len() == 0 || !possible(p, t[0]) {
        None
    } else {
        match step(p, t[0]) {
            Next::Read(q) => run(q, t.drop_first()),
            Next::Done(r) => if t.len() == 1 {
                Some(r)
            } else {
                None
            },
        }
    }
}

/// The result of filling a buffer of `len` bytes from a source whose replies
/// were `t`, one per read; `None` where `t` is not the whole run of such a fill.
pub open spec fn fill_result<E>(len: nat, t: Seq<Event<E>>) -> Option<Result<bool, FillError<E>>> {
    match begin_spec::<E>(len) {
        Next::Done(r) => if t.len() == 0 {
            Some(r)
        } else {
            None
        },
        Next::Read(p) => run(p, t),
    }
}

/// The bytes that the replies `t` delivered, in order.
pub open spec fn delivered<E>(t: Seq<Event<E>>) -> Seq<u8>
    decreases t.len(),
{
    if t.len() == 0 {
        Seq::empty()
    } else {
        let rest = delivered(t.drop_last());
        match t.last() {
            Event::Data(d) => rest + d,
            _ => rest,
        }
    }
}

/// Starts a fill of a buffer of `len` bytes: an empty buffer is full at once.
pub fn begin<E>(len: usize) -> (r: Next<E>)
    ensures
        r == begin_spec::<E>(len as nat),
{
    if len == 0 {
        Next::Done(Ok(true))
    } else {
        Next::Read(Progress { len, filled: 0, retries_left: MAX_INTERRUPTS })
    }
}

impl Progress {
    /// Takes in a read that delivered `n` bytes: none ends the fill, empty or
    /// truncated; enough completes it; fewer leave it reading.
    pub fn after_read<E>(self, n: usize) -> (r: Next<E>)
        requires
            self.valid(),
            n <= self.remaining(),
        ensures
            r == after_read_spec::<E>(self, n as nat),
    {
        if n == 0 {
            if self.filled > 0 {
                Next::Done(Err(FillError::UnexpectedEof))
            } else {
                Next::Done(Ok(false))
            }
        } else if n == self.len - self.filled {
            Next::Done(Ok(true))
        } else {
            Next::Read(Progress { filled: self.filled + n, ..self })
        }
    }

    /// Takes in an interrupted read: the fill retries while it tolerates more
    /// interruptions and otherwise fails with the error `e`.
    pub fn after_interrupt<E>(self, e: E) -> (r: Next<E>)
        ensures
            r == after_interrupt_spec(self, e),
    {
        if self.retries_left == 0 {
            Next::Done(Err(FillError::Source(e)))
        } else {
            Next::Read(Progress { retries_left: self.retries_left - 1, ..self })
        }
    }
}

} // verus!
