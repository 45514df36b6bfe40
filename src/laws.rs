//! Laws of the fill, proved over the state machine of [`crate::model`]. Each
//! speaks of the replies `t` that a source gave to one fill, one per read, as
//! [`crate::fill::fill_or_eof`] and `read_exact_or_eof` state them.

use vstd::prelude::*;

use crate::model::{
    delivered, fill_result, run, Event, FillError, Progress, MAX_INTERRUPTS,
};

verus! {

/// The bytes that one reply delivered.
pub open spec fn data_of<E>(ev: Event<E>) -> Seq<u8> {
    match ev {
        Event::Data(d) => d,
        _ => Seq::empty(),
    }
}

/// Every reply in `t` is a read that returned bytes or ended the stream.
pub open spec fn only_data<E>(t: Seq<Event<E>>) -> bool {
    forall|i: int| 0 <= i < t.len() ==> #[trigger] t[i] is Data
}

/// Every reply in `t` is a read that returned at least one byte.
pub open spec fn always_data<E>(t: Seq<Event<E>>) -> bool {
    forall|i: int| 0 <= i < t.len() ==> (#[trigger] t[i] is Data && data_of(t[i]).len() > 0)
}

/// Every reply in `t` reports the end of the stream.
pub open spec fn always_end<E>(t: Seq<Event<E>>) -> bool {
    forall|i: int| 0 <= i < t.len() ==> #[trigger] t[i] == Event::<E>::Data(Seq::empty())
}

/// The number of interrupted reads in `t`.
pub open spec fn interruptions<E>(t: Seq<Event<E>>) -> nat
    decreases t.len(),
{
    if t.len() == 0 {
        0
    } else {
        (if t[0] is Interrupted {
            1nat
        } else {
            0nat
        }) + interruptions(t.drop_first())
    }
}

/// Replies that report the interruptions `es`, one each.
pub open spec fn interrupted_by<E>(es: Seq<E>) -> Seq<Event<E>> {
    es.map_values(|e: E| Event::Interrupted(e))
}

/// What a run delivered is what its first reply delivered, then the rest.
pub proof fn lemma_delivered_front<E>(t: Seq<Event<E>>)
    requires
        t.len() > 0,
    ensures
        delivered(t) == data_of(t[0]) + delivered(t.drop_first()),
    decreases t.len(),
{
    if t.len() == 1 {
        assert(t.drop_last() =~= Seq::<Event<E>>::empty());
        assert(t.drop_first() =~= Seq::<Event<E>>::empty());
        assert(delivered(t.drop_last()) == Seq::<u8>::empty());
        assert(delivered(t.drop_first()) == Seq::<u8>::empty());
        assert(t.last() == t[0]);
        match t[0] {
            Event::Data(d) => {
                assert(delivered(t) =~= data_of(t[0]) + delivered(t.drop_first()));
            },
            _ => {
                assert(delivered(t) =~= data_of(t[0]) + delivered(t.drop_first()));
            },
        }
    } else {
        lemma_delivered_front(t.drop_last());
        assert(t.drop_last().drop_first() =~= t.drop_first().drop_last());
        assert(t.drop_first().last() == t.last());
        assert(t.drop_last()[0] == t[0]);
        match t.last() {
            Event::Data(d) => {
                assert(delivered(t) =~= data_of(t[0]) + delivered(t.drop_first()));
            },
            _ => {
                assert(delivered(t) =~= data_of(t[0]) + delivered(t.drop_first()));
            },
        }
    }
}

/// A run of reads alone, from state `p`, ends as the bytes it delivered
/// decide: a full buffer, nothing at all, or a truncated buffer.
pub proof fn lemma_data_only<E>(p: Progress, t: Seq<Event<E>>)
    requires
        p.valid(),
        run(p, t) is Some,
        only_data(t),
    ensures
        p.filled + delivered(t).len() <= p.len,
        p.filled + delivered(t).len() == p.len ==> run(p, t) == Some(
            Ok::<bool, FillError<E>>(true),
        ),
        p.filled + delivered(t).len() == 0 ==> run(p, t) == Some(Ok::<bool, FillError<E>>(false)),
        0 < p.filled + delivered(t).len() < p.len ==> run(p, t) == Some(
            Err::<bool, FillError<E>>(FillError::UnexpectedEof),
        ),
        always_data(t) ==> p.filled + delivered(t).len() == p.len,
    decreases t.len(),
{
    lemma_delivered_front(t);
    assert(t[0] is Data);
    let d = data_of(t[0]);
    let rest = t.drop_first();
    if d.len() == 0 || p.filled + d.len() == p.len {
        assert(t.len() == 1);
        assert(rest =~= Seq::<Event<E>>::empty());
    } else {
        let q = Progress { filled: (p.filled + d.len()) as usize, ..p };
        assert(run(p, t) == run(q, rest));
        assert forall|i: int| 0 <= i < rest.len() implies #[trigger] rest[i] is Data by {
            assert(rest[i] == t[i + 1]);
        }
        if always_data(t) {
            assert forall|i: int| 0 <= i < rest.len() implies (#[trigger] rest[i] is Data
                && data_of(rest[i]).len() > 0) by {
                assert(rest[i] == t[i + 1]);
            }
        }
        lemma_data_only(q, rest);
    }
}

/// Interruptions that a fill in state `p` tolerates change nothing but the
/// tolerance left.
pub proof fn lemma_skip_interruptions<E>(p: Progress, es: Seq<E>, t: Seq<Event<E>>)
    requires
        p.valid(),
        es.len() <= p.retries_left,
    ensures
        run(p, interrupted_by(es) + t) == run(
            Progress { retries_left: (p.retries_left - es.len()) as u64, ..p },
            t,
        ),
    decreases es.len(),
{
    if es.len() == 0 {
        assert(interrupted_by(es) + t =~= t);
        assert(p == Progress { retries_left: (p.retries_left - es.len()) as u64, ..p });
    } else {
        let q = Progress { retries_left: (p.retries_left - 1) as u64, ..p };
        let s = interrupted_by(es) + t;
        assert(s[0] == Event::<E>::Interrupted(es[0]));
        assert(s.drop_first() =~= interrupted_by(es.drop_first()) + t);
        lemma_skip_interruptions(q, es.drop_first(), t);
    }
}

/// Two fills that differ only in how many interruptions they tolerate end a
/// run alike when both tolerate all of its interruptions.
pub proof fn lemma_tolerance<E>(p: Progress, q: Progress, t: Seq<Event<E>>)
    requires
        p.valid(),
        q.len == p.len,
        q.filled == p.filled,
        interruptions(t) <= p.retries_left,
        interruptions(t) <= q.retries_left,
    ensures
        run(p, t) == run(q, t),
    decreases t.len(),
{
    if t.len() > 0 {
        let rest = t.drop_first();
        match t[0] {
            Event::Interrupted(e) => {
                let p1 = Progress { retries_left: (p.retries_left - 1) as u64, ..p };
                let q1 = Progress { retries_left: (q.retries_left - 1) as u64, ..q };
                lemma_tolerance(p1, q1, rest);
            },
            Event::Data(d) => {
                if d.len() > 0 && p.filled + d.len() < p.len {
                    let p1 = Progress { filled: (p.filled + d.len()) as usize, ..p };
                    let q1 = Progress { filled: (q.filled + d.len()) as usize, ..q };
                    lemma_tolerance(p1, q1, rest);
                }
            },
            Event::Failed(e) => {},
        }
    }
}

/// A source that reports the end of the stream at once: a buffer of `len`
/// bytes is filled with no read where it is empty, and otherwise the fill
/// reports an empty source after exactly one read.
pub proof fn law_source_already_ended<E>(len: nat, t: Seq<Event<E>>)
    requires
        len <= usize::MAX,
        fill_result(len, t) is Some,
        always_end(t),
    ensures
        len == 0 ==> t.len() == 0 && fill_result(len, t) == Some(Ok::<bool, FillError<E>>(true)),
        len > 0 ==> t.len() == 1 && fill_result(len, t) == Some(Ok::<bool, FillError<E>>(false)),
{
    if len > 0 {
        assert(t[0] == Event::<E>::Data(Seq::empty()));
    }
}

/// A source that always has data: however short its reads, the fill of a
/// non-empty buffer succeeds, and the reads delivered exactly as many bytes as
/// the buffer holds (which then holds them, in order).
pub proof fn law_source_always_has_data<E>(len: nat, t: Seq<Event<E>>)
    requires
        0 < len <= usize::MAX,
        fill_result(len, t) is Some,
        always_data(t),
    ensures
        fill_result(len, t) == Some(Ok::<bool, FillError<E>>(true)),
        delivered(t).len() == len,
{
    let p = Progress { len: len as usize, filled: 0, retries_left: MAX_INTERRUPTS };
    assert forall|i: int| 0 <= i < t.len() implies #[trigger] t[i] is Data by {
        assert(t[i] is Data && data_of(t[i]).len() > 0);
    }
    lemma_data_only(p, t);
}

/// A source that delivers some bytes, fewer than the buffer holds, and then
/// ends: the fill fails with `UnexpectedEof`.
pub proof fn law_source_ends_partway<E>(len: nat, t: Seq<Event<E>>)
    requires
        len <= usize::MAX,
        fill_result(len, t) is Some,
        only_data(t),
        0 < delivered(t).len() < len,
    ensures
        fill_result(len, t) == Some(Err::<bool, FillError<E>>(FillError::UnexpectedEof)),
{
    let p = Progress { len: len as usize, filled: 0, retries_left: MAX_INTERRUPTS };
    lemma_data_only(p, t);
}

/// Interruptions before the replies `t` change neither the result of filling
/// a non-empty buffer nor the bytes delivered, as long as the fill tolerates
/// all of them together with those of `t`.
pub proof fn law_interruptions_invisible<E>(len: nat, es: Seq<E>, t: Seq<Event<E>>)
    requires
        0 < len <= usize::MAX,
        es.len() + interruptions(t) <= MAX_INTERRUPTS,
    ensures
        fill_result(len, interrupted_by(es) + t) == fill_result(len, t),
        delivered(interrupted_by(es) + t) == delivered(t),
    decreases es.len(),
{
    let p = Progress { len: len as usize, filled: 0, retries_left: MAX_INTERRUPTS };
    lemma_skip_interruptions(p, es, t);
    let q = Progress { retries_left: (MAX_INTERRUPTS - es.len()) as u64, ..p };
    lemma_tolerance(q, p, t);
    if es.len() > 0 {
        let s = interrupted_by(es) + t;
        lemma_delivered_front(s);
        assert(s.drop_first() =~= interrupted_by(es.drop_first()) + t);
        law_interruptions_invisible(len, es.drop_first(), t);
    } else {
        assert(interrupted_by(es) + t =~= t);
    }
}

/// An empty buffer: the fill reads nothing and succeeds, every time.
pub proof fn law_empty_buffer<E>(t: Seq<Event<E>>)
    requires
        fill_result(0, t) is Some,
    ensures
        t.len() == 0,
        fill_result(0, t) == Some(Ok::<bool, FillError<E>>(true)),
{
}

} // verus!
