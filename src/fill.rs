//! Driving the fill against a `std::io::Read` source.

use vstd::prelude::*;

use crate::model::{
    begin, delivered, fill_result, run, step, Event, FillError, Next, Progress,
};

verus! {

/// The error type of `std::io`, carried through a fill without looking inside.
#[verifier::external_type_specification]
#[verifier::external_body]
pub struct ExIoError(std::io::Error);

/// Relies on `std::io::Read::read`, called on the part of `buf` from `pos` on:
/// it can write only there, and its documentation requires every
/// implementation to report at most as many bytes as that part holds.
#[verifier::external_body]
fn read_from<T: std::io::Read>(src: &mut T, buf: &mut [u8], pos: usize) -> (r: Result<
    usize,
    std::io::Error,
>)
    requires
        pos < old(buf)@.len(),
    ensures
        final(buf)@.len() == old(buf)@.len(),
        final(buf)@.subrange(0, pos as int) == old(buf)@.subrange(0, pos as int),
        r matches Ok(n) ==> n <= old(buf)@.len() - pos,
{
    src.read(&mut buf[pos..])
}

/// Relies on `std::io::Error::kind`: tells a transient interruption apart from
/// every other error.
#[verifier::external_body]
fn is_interrupted(e: &std::io::Error) -> bool {
    e.kind() == std::io::ErrorKind::Interrupted
}

/// Relies on `std::io::Error::new`: the error that reports a buffer the source
/// could not fill after it had begun to.
#[verifier::external_body]
fn unexpected_eof_error() -> std::io::Error {
    std::io::Error::new(std::io::ErrorKind::UnexpectedEof, "failed to fill whole buffer")
}

/// `r` is what a fill that ended with `f` reports through `std::io`: a
/// truncated fill becomes some error of its own.
pub open spec fn reported<E>(f: Option<Result<bool, FillError<E>>>, r: Result<bool, E>) -> bool {
    match f {
        Some(Ok(b)) => r == Ok::<bool, E>(b),
        Some(Err(FillError::UnexpectedEof)) => r is Err,
        Some(Err(FillError::Source(e))) => r == Err::<bool, E>(e),
        None => false,
    }
}

/// Fills `buf` from `src`, reading until it is full, the source ends, or the
/// source fails; interruptions are retried.
///
/// The replies of the source, one per read and in order, form a whole run of
/// the fill that ends with the result returned; when the buffer was filled it
/// holds the bytes they delivered. An empty buffer is full at once, and the
/// source is not read.
pub fn fill_or_eof<T: std::io::Read>(src: &mut T, buf: &mut [u8]) -> (r: Result<
    bool,
    FillError<std::io::Error>,
>)
    ensures
        final(buf)@.len() == old(buf)@.len(),
        exists|t: Seq<Event<std::io::Error>>|
            #[trigger] fill_result(old(buf)@.len(), t) == Some(r) && (r == Ok::<
                bool,
                FillError<std::io::Error>,
            >(true) ==> final(buf)@ == delivered(t)),
        old(buf)@.len() == 0 ==> r == Ok::<bool, FillError<std::io::Error>>(true) && *final(src)
            == *old(src),
{
    let len = buf.len();
    let mut p = match begin(len) {
        Next::Done(r) => {
            assert(fill_result(len as nat, Seq::<Event<std::io::Error>>::empty()) == Some(r));
            return r;
        },
        Next::Read(p) => p,
    };
    let ghost mut t: Seq<Event<std::io::Error>> = Seq::empty();
    proof {
        assert forall|u: Seq<Event<std::io::Error>>| fill_result(len as nat, t + u) == run(p, u) by {
            assert(t + u =~= u);
        }
    }
    loop
        invariant
            buf@.len() == len,
            old(buf)@.len() == len,
            p.len == len,
            p.valid(),
            forall|u: Seq<Event<std::io::Error>>| #[trigger]
                fill_result(len as nat, t + u) == run(p, u),
            buf@.subrange(0, p.filled as int) == delivered(t),
        decreases p.len - p.filled, p.retries_left,
    {
        let ghost before = buf@;
        let got = read_from(src, buf, p.filled);
        let ghost ev: Event<std::io::Error>;
        let next = match got {
            Ok(n) => {
                proof {
                    ev = Event::Data(buf@.subrange(p.filled as int, p.filled + n));
                }
                p.after_read(n)
            },
            Err(e) => {
                if is_interrupted(&e) {
                    proof {
                        ev = Event::Interrupted(e);
                    }
                    p.after_interrupt(e)
                } else {
                    proof {
                        ev = Event::Failed(e);
                    }
                    Next::Done(Err(FillError::Source(e)))
                }
            },
        };
        proof {
            assert(next == step(p, ev));
            let t1 = t.push(ev);
            assert(t1.drop_last() =~= t);
            assert(buf@.subrange(0, p.filled as int) =~= before.subrange(0, p.filled as int));
            if let Event::Data(d) = ev {
                assert(buf@.subrange(0, p.filled + d.len()) =~= buf@.subrange(0, p.filled as int)
                    + d);
            }
            assert forall|u: Seq<Event<std::io::Error>>|
                #[trigger] fill_result(len as nat, t1 + u) == run(p, seq![ev] + u) by {
                assert(t1 + u =~= t + (seq![ev] + u));
                assert((seq![ev] + u)[0] == ev);
                assert((seq![ev] + u).drop_first() =~= u);
            }
            t = t1;
        }
        match next {
            Next::Read(q) => {
                proof {
                    assert forall|u: Seq<Event<std::io::Error>>|
                        #[trigger] fill_result(len as nat, t + u) == run(q, u) by {
                        assert(fill_result(len as nat, t + u) == run(p, seq![ev] + u));
                        assert((seq![ev] + u).drop_first() =~= u);
                    }
                }
                p = q;
            },
            Next::Done(r) => {
                proof {
                    assert(fill_result(len as nat, t + Seq::empty()) == run(p, seq![ev] + Seq::empty()));
                    assert(t + Seq::<Event<std::io::Error>>::empty() =~= t);
                    assert(seq![ev] + Seq::<Event<std::io::Error>>::empty() =~= seq![ev]);
                    assert(run(p, seq![ev]) == Some(r));
                    if r == Ok::<bool, FillError<std::io::Error>>(true) {
                        assert(buf@ =~= buf@.subrange(0, len as int));
                    }
                }
                return r;
            },
        }
    }
}

/// Filling a buffer from a source that may be empty from the start.
pub trait ReadExactExt {
    /// Reads exactly the number of bytes to fill `buf`, or none.
    ///
    /// Returns `true` once `buf` is full (at once where it is empty), `false`
    /// where the source had ended before delivering a single byte. A source
    /// that ends partway through gives an `UnexpectedEof` error; any other
    /// error of the source but an interruption is handed back unchanged.
    /// What `buf` holds after `false` or an error is unspecified.
    fn read_exact_or_eof(&mut self, buf: &mut [u8]) -> (r: Result<bool, std::io::Error>) where
        Self: std::io::Read,
        ensures
            final(buf)@.len() == old(buf)@.len(),
            exists|t: Seq<Event<std::io::Error>>|
                reported(#[trigger] fill_result(old(buf)@.len(), t), r) && (r
                    == Ok::<bool, std::io::Error>(true) ==> final(buf)@ == delivered(t)),
            old(buf)@.len() == 0 ==> r == Ok::<bool, std::io::Error>(true),
    ;
}

impl<T> ReadExactExt for T {
    /// An empty buffer leaves the source untouched.
    fn read_exact_or_eof(&mut self, buf: &mut [u8]) -> (r: Result<bool, std::io::Error>) where
        T: std::io::Read,
        ensures
            old(buf)@.len() == 0 ==> *final(self) == *old(self),
    {
        let f = fill_or_eof(self, buf);
        match f {
            Ok(b) => Ok(b),
            Err(FillError::UnexpectedEof) => Err(unexpected_eof_error()),
            Err(FillError::Source(e)) => Err(e),
        }
    }
}

} // verus!
