//! Bridging between streaming protocols: the shared event format and the
//! decisions a bridge makes while forwarding events.

pub mod event;

pub use event::{BridgeEvent, EventMetadata};

use vstd::prelude::*;

use crate::error::{BridgeError, SourceError};

verus! {

/// `s` without the elements whose index is listed in `idx`, in order.
pub open spec fn without_indices<T>(s: Seq<T>, idx: Seq<usize>) -> Seq<T>
    decreases s.len(),
{
    if s.len() == 0 {
        s
    } else {
        let rest = without_indices(s.drop_last(), idx);
        if idx.contains((s.len() - 1) as usize) {
            rest
        } else {
            rest.push(s.last())
        }
    }
}

fn listed(idx: &Vec<usize>, i: usize) -> (r: bool)
    ensures
        r == idx@.contains(i),
{
    let mut k: usize = 0;
    while k < idx.len()
        invariant
            k <= idx@.len(),
            forall|j: int| 0 <= j < k ==> idx@[j] != i,
        decreases idx@.len() - k,
    {
        if idx[k] == i {
            assert(idx@[k as int] == i);
            return true;
        }
        k += 1;
    }
    false
}

/// Removes the items whose index is listed in `failed` (the sinks whose send
/// failed), keeping the others in order; indices out of range are ignored.
pub fn remove_failed<T>(items: &mut Vec<T>, failed: &Vec<usize>)
    ensures
        final(items)@ == without_indices(old(items)@, failed@),
{
    let ghost whole = items@;
    let mut rev: Vec<T> = Vec::new();
    let ghost mut suffix: Seq<T> = Seq::empty();
    let mut i = items.len();
    assert(whole.take(i as int) =~= whole);
    while i > 0
        invariant
            i <= whole.len(),
            items@ == whole.take(i as int),
            without_indices(whole, failed@) == without_indices(whole.take(i as int), failed@) + suffix,
            rev@ == suffix.reverse(),
        decreases i,
    {
        i -= 1;
        let ghost pre = whole.take(i + 1);
        assert(pre.drop_last() =~= whole.take(i as int));
        let x = items.pop().unwrap();
        assert(items@ =~= whole.take(i as int));
        if !listed(failed, i) {
            proof {
                assert(without_indices(pre, failed@) == without_indices(whole.take(i as int), failed@).push(x));
                assert(without_indices(whole.take(i as int), failed@).push(x) + suffix =~= without_indices(whole.take(i as int), failed@) + (seq![x] + suffix));
                assert((seq![x] + suffix).reverse() =~= suffix.reverse().push(x));
                suffix = seq![x] + suffix;
            }
            rev.push(x);
        } else {
            assert(without_indices(pre, failed@) == without_indices(whole.take(i as int), failed@));
        }
    }
    assert(without_indices(whole.take(0), failed@) =~= Seq::<T>::empty());
    assert(without_indices(whole, failed@) =~= suffix);
    assert(items@ =~= suffix.take(0));
    assert(suffix.skip(0) =~= suffix);
    while rev.len() > 0
        invariant
            rev@.len() <= suffix.len(),
            rev@ == suffix.skip(suffix.len() - rev@.len()).reverse(),
            items@ == suffix.take(suffix.len() - rev@.len()),
        decreases rev@.len(),
    {
        let ghost k = suffix.len() - rev@.len();
        let x = rev.pop().unwrap();
        assert(x == suffix[k]);
        items.push(x);
        assert(items@ =~= suffix.take(k + 1));
        assert(rev@ =~= suffix.skip(k + 1).reverse());
    }
    assert(items@ =~= suffix);
}

/// What a bridge does with the next item of its source.
#[derive(Debug)]
pub enum SourceStep {
    /// Forward this event to the sinks.
    Forward(BridgeEvent),
    /// The source is done: close the sinks and return `Ok`.
    Finish,
    /// The source failed: return this error.
    Fail(BridgeError),
}

/// The step for the next item of the source: an event is forwarded; the end
/// of the stream or a `Closed` error finishes the run; any other error fails
/// it.
pub fn source_step(item: Option<Result<BridgeEvent, SourceError>>) -> (s: SourceStep)
    ensures
        match item {
            None => s matches SourceStep::Finish,
            Some(Ok(e)) => s == SourceStep::Forward(e),
            Some(Err(SourceError::Closed)) => s matches SourceStep::Finish,
            Some(Err(e)) => s == SourceStep::Fail(BridgeError::Source(e)),
        },
{
    match item {
        None => SourceStep::Finish,
        Some(Ok(e)) => SourceStep::Forward(e),
        Some(Err(SourceError::Closed)) => SourceStep::Finish,
        Some(Err(e)) => SourceStep::Fail(BridgeError::Source(e)),
    }
}

/// Whether a bridge may start: it needs at least one sink.
pub fn check_sinks(sink_count: usize) -> (r: Result<(), BridgeError>)
    ensures
        sink_count == 0 ==> r matches Err(BridgeError::NoSinks),
        sink_count > 0 ==> r is Ok,
{
    if sink_count == 0 {
        Err(BridgeError::NoSinks)
    } else {
        Ok(())
    }
}

/// What happened to one sink when an event was forwarded to it.
#[derive(Debug, Clone, Copy, PartialEq, Eq, Structural)]
pub enum SinkOutcome {
    /// The sink was closed already; nothing was sent.
    AlreadyClosed,
    /// The event was sent.
    Sent,
    /// Sending failed.
    SendFailed,
}

/// The indices of the sinks that failed in a forwarding round: those closed
/// already and those whose send failed, in order.
pub open spec fn failed_indices(outcomes: Seq<SinkOutcome>) -> Seq<usize>
    decreases outcomes.len(),
{
    if outcomes.len() == 0 {
        Seq::empty()
    } else {
        let rest = failed_indices(outcomes.drop_last());
        if outcomes.last() != SinkOutcome::Sent {
            rest.push((outcomes.len() - 1) as usize)
        } else {
            rest
        }
    }
}

/// Exactly the sinks that did not take the event are reported failed:
/// index `i` is listed when and only when sink `i` was closed already or its
/// send failed; every index listed is a sink's, and they come in increasing
/// order.
pub proof fn lemma_failed_indices_exact(o: Seq<SinkOutcome>)
    requires
        o.len() <= usize::MAX,
    ensures
        forall|i: int|
            0 <= i < o.len() ==> (failed_indices(o).contains(i as usize) <==> o[i]
                != SinkOutcome::Sent),
        forall|k: int| 0 <= k < failed_indices(o).len() ==> failed_indices(o)[k] < o.len(),
        forall|k: int, l: int|
            0 <= k < l < failed_indices(o).len() ==> failed_indices(o)[k] < failed_indices(o)[l],
    decreases o.len(),
{
    if o.len() > 0 {
        let front = o.drop_last();
        lemma_failed_indices_exact(front);
        let rest = failed_indices(front);
        let r = failed_indices(o);
        let n = (o.len() - 1) as usize;
        assert(n == o.len() - 1);
        assert forall|i: int| 0 <= i < o.len() implies (r.contains(i as usize) <==> o[i]
            != SinkOutcome::Sent) by {
            if i < o.len() - 1 {
                assert(front[i] == o[i]);
                if r.contains(i as usize) {
                    let j = choose|j: int| 0 <= j < r.len() && r[j] == i as usize;
                    if j < rest.len() {
                        assert(r[j] == rest[j]);
                    } else {
                        assert(r[j] == n);
                    }
                    assert(rest.contains(i as usize));
                }
                if rest.contains(i as usize) {
                    let j = choose|j: int| 0 <= j < rest.len() && rest[j] == i as usize;
                    assert(r[j] == rest[j]);
                }
            } else {
                if r.contains(i as usize) {
                    let j = choose|j: int| 0 <= j < r.len() && r[j] == i as usize;
                    if j < rest.len() {
                        assert(r[j] == rest[j]);
                        assert(rest[j] < front.len());
                    }
                }
                if o[i] != SinkOutcome::Sent {
                    assert(r[r.len() - 1] == n);
                }
            }
        }
    }
}

/// See [`failed_indices`]; `outcomes[i]` is what happened to sink `i`.
pub fn failed_sinks(outcomes: &Vec<SinkOutcome>) -> (r: Vec<usize>)
    ensures
        r@ == failed_indices(outcomes@),
        forall|i: int|
            0 <= i < outcomes@.len() ==> (r@.contains(i as usize) <==> outcomes@[i]
                != SinkOutcome::Sent),
        forall|k: int| 0 <= k < r@.len() ==> r@[k] < outcomes@.len(),
{
    let mut r: Vec<usize> = Vec::new();
    let mut i: usize = 0;
    while i < outcomes.len()
        invariant
            i <= outcomes@.len(),
            r@ == failed_indices(outcomes@.take(i as int)),
        decreases outcomes@.len() - i,
    {
        assert(outcomes@.take(i + 1).drop_last() =~= outcomes@.take(i as int));
        assert(outcomes@.take(i + 1).last() == outcomes@[i as int]);
        if outcomes[i] != SinkOutcome::Sent {
            r.push(i);
        }
        i += 1;
    }
    assert(outcomes@.take(outcomes@.len() as int) =~= outcomes@);
    proof {
        lemma_failed_indices_exact(outcomes@);
    }
    r
}

/// Drops the sinks that failed (see [`remove_failed`]) and says whether the
/// bridge stops: some sink was dropped and none is left.
pub fn drop_failed_sinks<T>(sinks: &mut Vec<T>, failed: &Vec<usize>) -> (stop: bool)
    ensures
        final(sinks)@ == without_indices(old(sinks)@, failed@),
        stop == (failed@.len() > 0 && final(sinks)@.len() == 0),
{
    remove_failed(sinks, failed);
    failed.len() > 0 && sinks.len() == 0
}

/// Why a bridge run ended.
#[derive(Debug, Clone, Copy, PartialEq, Eq, Structural)]
pub enum RunEnd {
    /// The source ended (or reported itself closed).
    SourceDone,
    /// The bridge was stopped.
    Stopped,
    /// Every sink failed and was dropped.
    SinksGone,
}

/// The result of a bridge run: `Ok` only when the source ended; a stopped
/// bridge reports `Stopped`, and one left without sinks reports `NoSinks`.
pub fn run_result(end: RunEnd) -> (r: Result<(), BridgeError>)
    ensures
        match end {
            RunEnd::SourceDone => r is Ok,
            RunEnd::Stopped => r matches Err(BridgeError::Stopped),
            RunEnd::SinksGone => r matches Err(BridgeError::NoSinks),
        },
{
    match end {
        RunEnd::SourceDone => Ok(()),
        RunEnd::Stopped => Err(BridgeError::Stopped),
        RunEnd::SinksGone => Err(BridgeError::NoSinks),
    }
}

} // verus!
