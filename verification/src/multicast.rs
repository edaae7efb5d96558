//! The subscriber registry behind one-to-many distribution: subscribers get
//! their ids from one source of ids, which never hands out an id twice, and a
//! registry never holds two subscribers with the same id.

use vstd::prelude::*;
use vstd::string::*;

use crate::error::SinkError;
use crate::text::{decimal, push_decimal};

verus! {

/// The identifier of a fan-out subscriber.
#[derive(Debug, Clone, Copy, PartialEq, Eq, Hash, Structural)]
pub struct FanoutId(usize);

impl FanoutId {
    /// The number behind the id.
    pub closed spec fn index(self) -> usize {
        self.0
    }
}

/// `s` without the entries whose id is in `ids`, in order.
pub open spec fn without_ids<T>(s: Seq<(FanoutId, T)>, ids: Seq<FanoutId>) -> Seq<(FanoutId, T)>
    decreases s.len(),
{
    if s.len() == 0 {
        s
    } else {
        let rest = without_ids(s.drop_last(), ids);
        if ids.contains(s.last().0) {
            rest
        } else {
            rest.push(s.last())
        }
    }
}

/// The subscribers of a fan-out: each with its id and its item (the sending
/// half of its channel).
pub struct SubscriberRegistry<T> {
    entries: Vec<(FanoutId, T)>,
}

/// Hands out fan-out subscriber ids in increasing order, so that no id is
/// handed out twice. One source serves the whole process.
pub struct FanoutIdSource {
    next: usize,
}

impl FanoutIdSource {
    /// The number of the next id to hand out; every id handed out so far
    /// is below it.
    pub closed spec fn next_index(&self) -> usize {
        self.next
    }

    /// A source that has handed out nothing.
    pub fn new() -> (s: Self)
        ensures
            s.next_index() == 0,
    {
        FanoutIdSource { next: 0 }
    }

    /// A fresh id: above every id handed out before. `None`, with the source
    /// unchanged, once every id has been handed out.
    pub fn next_id(&mut self) -> (r: Option<FanoutId>)
        ensures
            match r {
                Some(id) => {
                    &&& id.index() == old(self).next_index()
                    &&& final(self).next_index() == old(self).next_index() + 1
                },
                None => {
                    &&& old(self).next_index() == usize::MAX
                    &&& final(self).next_index() == old(self).next_index()
                },
            },
    {
        if self.next == usize::MAX {
            return None;
        }
        let id = FanoutId(self.next);
        self.next = self.next + 1;
        Some(id)
    }
}

/// Ids handed out by one source never repeat: every id handed out before is
/// below the source's next index, and the next id handed out is not.
pub proof fn lemma_ids_never_repeat(earlier: FanoutId, source: FanoutIdSource, next: FanoutId)
    requires
        earlier.index() < source.next_index(),
        next.index() == source.next_index(),
    ensures
        earlier != next,
{
}

/// No two entries share an id.
pub open spec fn unique_ids<T>(s: Seq<(FanoutId, T)>) -> bool {
    forall|i: int, j: int| 0 <= i < j < s.len() ==> #[trigger] s[i].0 != #[trigger] s[j].0
}

fn id_listed(ids: &Vec<FanoutId>, id: FanoutId) -> (r: bool)
    ensures
        r == ids@.contains(id),
{
    let mut k: usize = 0;
    while k < ids.len()
        invariant
            k <= ids@.len(),
            forall|j: int| 0 <= j < k ==> ids@[j] != id,
        decreases ids@.len() - k,
    {
        if ids[k] == id {
            assert(ids@[k as int] == id);
            return true;
        }
        k += 1;
    }
    false
}

impl<T> SubscriberRegistry<T> {
    /// The subscribers, in the order they registered.
    pub closed spec fn entries_view(&self) -> Seq<(FanoutId, T)> {
        self.entries@
    }

    /// No two subscribers share an id.
    #[verifier::type_invariant]
    spec fn wf(&self) -> bool {
        unique_ids(self.entries@)
    }

    /// Whether a subscriber has the id `id`.
    pub open spec fn has_id(&self, id: FanoutId) -> bool {
        exists|i: int| 0 <= i < self.entries_view().len() && (#[trigger] self.entries_view()[i]).0 == id
    }

    /// A registry with no subscriber.
    pub fn new() -> (r: Self)
        ensures
            r.entries_view().len() == 0,
    {
        SubscriberRegistry { entries: Vec::new() }
    }

    /// The number of subscribers.
    pub fn len(&self) -> (n: usize)
        ensures
            n == self.entries_view().len(),
            unique_ids(self.entries_view()),
    {
        proof {
            use_type_invariant(self);
        }
        self.entries.len()
    }

    /// The subscribers, in the order they registered.
    pub fn entries(&self) -> (e: &Vec<(FanoutId, T)>)
        ensures
            e@ == self.entries_view(),
            unique_ids(e@),
    {
        proof {
            use_type_invariant(self);
        }
        &self.entries
    }

    /// Adds a subscriber under `id`, unless a subscriber already has that
    /// id, in which case the registry is unchanged; says whether it added.
    pub fn register(&mut self, id: FanoutId, item: T) -> (added: bool)
        ensures
            added == !old(self).has_id(id),
            added ==> final(self).entries_view() == old(self).entries_view().push((id, item)),
            !added ==> final(self).entries_view() == old(self).entries_view(),
    {
        proof {
            use_type_invariant(&*self);
        }
        let mut k: usize = 0;
        while k < self.entries.len()
            invariant
                k <= self.entries@.len(),
                self.entries@ == old(self).entries@,
                forall|j: int| 0 <= j < k ==> self.entries@[j].0 != id,
            decreases self.entries@.len() - k,
        {
            if self.entries[k].0 == id {
                assert(self.entries_view()[k as int].0 == id);
                return false;
            }
            k += 1;
        }
        let ghost old_entries = self.entries@;
        let mut entries: Vec<(FanoutId, T)> = Vec::new();
        std::mem::swap(&mut self.entries, &mut entries);
        entries.push((id, item));
        proof {
            assert(entries@[old_entries.len() as int] == (id, item));
            assert forall|i: int, j: int| 0 <= i < j < entries@.len() implies #[trigger] entries@[i].0 != #[trigger] entries@[j].0 by {
                if j < old_entries.len() {
                    assert(old(self).entries_view()[i].0 != old(self).entries_view()[j].0);
                } else {
                    assert(old_entries[i].0 != id);
                }
            }
            assert(!old(self).has_id(id)) by {
                if old(self).has_id(id) {
                    let i = choose|i: int| 0 <= i < old(self).entries_view().len() && (#[trigger] old(self).entries_view()[i]).0 == id;
                    assert(old_entries[i].0 != id);
                }
            }
        }
        self.entries = entries;
        true
    }

    /// The item of the subscriber with id `id`, if any.
    pub fn find(&self, id: FanoutId) -> (r: Option<&T>)
        ensures
            match r {
                Some(x) => exists|i: int|
                    0 <= i < self.entries_view().len() && #[trigger] self.entries_view()[i] == (id, *x),
                None => !self.has_id(id),
            },
    {
        let mut k: usize = 0;
        while k < self.entries.len()
            invariant
                k <= self.entries@.len(),
                forall|j: int| 0 <= j < k ==> self.entries@[j].0 != id,
            decreases self.entries@.len() - k,
        {
            if self.entries[k].0 == id {
                assert(self.entries_view()[k as int] == (id, self.entries@[k as int].1));
                return Some(&self.entries[k].1);
            }
            k += 1;
        }
        None
    }

    /// Removes the subscribers whose id is in `ids`, keeping the others in
    /// order.
    pub fn remove_ids(&mut self, ids: &Vec<FanoutId>)
        ensures
            final(self).entries_view() == without_ids(old(self).entries_view(), ids@),
    {
        proof {
            use_type_invariant(&*self);
        }
        let mut entries: Vec<(FanoutId, T)> = Vec::new();
        std::mem::swap(&mut self.entries, &mut entries);
        let ghost whole = entries@;
        let mut rev: Vec<(FanoutId, T)> = Vec::new();
        let ghost mut suffix: Seq<(FanoutId, T)> = Seq::empty();
        let mut i = entries.len();
        assert(whole.take(i as int) =~= whole);
        while i > 0
            invariant
                i <= whole.len(),
                entries@ == whole.take(i as int),
                without_ids(whole, ids@) == without_ids(whole.take(i as int), ids@) + suffix,
                rev@ == suffix.reverse(),
            decreases i,
        {
            i -= 1;
            let ghost pre = whole.take(i + 1);
            assert(pre.drop_last() =~= whole.take(i as int));
            let x = entries.pop().unwrap();
            assert(entries@ =~= whole.take(i as int));
            if !id_listed(ids, x.0) {
                proof {
                    assert(without_ids(pre, ids@) == without_ids(whole.take(i as int), ids@).push(x));
                    assert(without_ids(whole.take(i as int), ids@).push(x) + suffix
                        =~= without_ids(whole.take(i as int), ids@) + (seq![x] + suffix));
                    assert((seq![x] + suffix).reverse() =~= suffix.reverse().push(x));
                    suffix = seq![x] + suffix;
                }
                rev.push(x);
            } else {
                assert(without_ids(pre, ids@) == without_ids(whole.take(i as int), ids@));
            }
        }
        assert(without_ids(whole.take(0), ids@) =~= Seq::<(FanoutId, T)>::empty());
        assert(without_ids(whole, ids@) =~= suffix);
        assert(entries@ =~= suffix.take(0));
        assert(suffix.skip(0) =~= suffix);
        while rev.len() > 0
            invariant
                rev@.len() <= suffix.len(),
                rev@ == suffix.skip(suffix.len() - rev@.len()).reverse(),
                entries@ == suffix.take(suffix.len() - rev@.len()),
            decreases rev@.len(),
        {
            let ghost k = suffix.len() - rev@.len();
            let x = rev.pop().unwrap();
            assert(x == suffix[k]);
            entries.push(x);
            assert(entries@ =~= suffix.take(k + 1));
            assert(rev@ =~= suffix.skip(k + 1).reverse());
        }
        assert(entries@ =~= suffix);
        proof {
            let m = lemma_without_ids_sub(whole, ids@);
            let r = without_ids(whole, ids@);
            assert forall|i: int, j: int| 0 <= i < j < r.len() implies #[trigger] r[i].0 != #[trigger] r[j].0 by {
                assert(m[i] < m[j]);
                assert(r[i] == whole[m[i]]);
                assert(r[j] == whole[m[j]]);
                assert(old(self).entries_view()[m[i]].0 != old(self).entries_view()[m[j]].0);
            }
        }
        self.entries = entries;
    }

    /// Removes every subscriber.
    pub fn clear(&mut self)
        ensures
            final(self).entries_view().len() == 0,
    {
        self.entries = Vec::new();
    }
}

/// Every entry left by `without_ids` is an entry of the input sequence,
/// and the entries keep their relative order: `m` maps each kept position to
/// its position in the input.
proof fn lemma_without_ids_sub<T>(s: Seq<(FanoutId, T)>, ids: Seq<FanoutId>) -> (m: Seq<int>)
    ensures
        m.len() == without_ids(s, ids).len(),
        forall|k: int| 0 <= k < m.len() ==> 0 <= #[trigger] m[k] < s.len() && without_ids(s, ids)[k] == s[m[k]],
        forall|k: int, l: int| 0 <= k < l < m.len() ==> #[trigger] m[k] < #[trigger] m[l],
    decreases s.len(),
{
    if s.len() > 0 {
        let m0 = lemma_without_ids_sub(s.drop_last(), ids);
        if !ids.contains(s.last().0) {
            m0.push(s.len() - 1)
        } else {
            m0
        }
    } else {
        Seq::empty()
    }
}

/// A lookup gives back what was registered: once `item` is registered under
/// a fresh `id`, the one entry with that id holds `item`.
pub proof fn lemma_lookup_after_register<T>(entries: Seq<(FanoutId, T)>, id: FanoutId, item: T, x: T)
    requires
        forall|i: int| 0 <= i < entries.len() ==> (#[trigger] entries[i]).0 != id,
        exists|i: int| 0 <= i < entries.len() + 1 && #[trigger] entries.push((id, item))[i] == (id, x),
    ensures
        x == item,
{
    let i = choose|i: int| 0 <= i < entries.len() + 1 && #[trigger] entries.push((id, item))[i] == (id, x);
    if i < entries.len() {
        assert(entries.push((id, item))[i] == entries[i]);
    }
}

/// Removing ids is exact: no listed id is left, and every subscriber whose
/// id is not listed stays.
pub proof fn lemma_remove_ids_exact<T>(s: Seq<(FanoutId, T)>, ids: Seq<FanoutId>)
    ensures
        forall|k: int| 0 <= k < without_ids(s, ids).len() ==> !ids.contains(#[trigger] without_ids(s, ids)[k].0),
        forall|i: int| 0 <= i < s.len() && !ids.contains(#[trigger] s[i].0) ==> without_ids(s, ids).contains(s[i]),
    decreases s.len(),
{
    if s.len() > 0 {
        let front = s.drop_last();
        lemma_remove_ids_exact(front, ids);
        let r = without_ids(s, ids);
        let rf = without_ids(front, ids);
        assert forall|k: int| 0 <= k < r.len() implies !ids.contains(#[trigger] r[k].0) by {
            if k < rf.len() {
                assert(r[k] == rf[k]);
            }
        }
        assert forall|i: int| 0 <= i < s.len() && !ids.contains(#[trigger] s[i].0) implies r.contains(s[i]) by {
            if i < front.len() {
                assert(front[i] == s[i]);
                let j = choose|j: int| 0 <= j < rf.len() && rf[j] == front[i];
                assert(r[j] == rf[j]);
            } else {
                assert(s[i] == s.last());
                assert(r[r.len() - 1] == s.last());
            }
        }
    }
}

/// What happened to one subscriber's copy of an event in a fan-out send.
#[derive(Debug, Clone, Copy, PartialEq, Eq, Structural)]
pub enum DeliveryOutcome {
    /// The event was queued.
    Delivered,
    /// The subscriber's buffer was full: the event is dropped for it only.
    Full,
    /// The subscriber's channel is closed.
    Closed,
}

/// The ids of the subscribers to remove after a send: those whose channel
/// was closed. A full buffer drops the event but keeps the subscriber.
pub open spec fn failed_ids(outcomes: Seq<(FanoutId, DeliveryOutcome)>) -> Seq<FanoutId>
    decreases outcomes.len(),
{
    if outcomes.len() == 0 {
        Seq::empty()
    } else {
        let rest = failed_ids(outcomes.drop_last());
        if outcomes.last().1 == DeliveryOutcome::Closed {
            rest.push(outcomes.last().0)
        } else {
            rest
        }
    }
}

/// Exactly the closed subscribers are removed: every subscriber whose
/// channel was closed is listed, and every id listed is that of a
/// subscriber whose channel was closed.
pub proof fn lemma_failed_ids_exact(o: Seq<(FanoutId, DeliveryOutcome)>)
    ensures
        forall|k: int|
            0 <= k < o.len() && o[k].1 == DeliveryOutcome::Closed ==> failed_ids(o).contains(
                #[trigger] o[k].0,
            ),
        forall|j: int|
            #![trigger failed_ids(o)[j]]
            0 <= j < failed_ids(o).len() ==> exists|k: int|
                0 <= k < o.len() && #[trigger] o[k] == (failed_ids(o)[j], DeliveryOutcome::Closed),
    decreases o.len(),
{
    if o.len() > 0 {
        let front = o.drop_last();
        lemma_failed_ids_exact(front);
        let rest = failed_ids(front);
        let r = failed_ids(o);
        assert forall|k: int|
            0 <= k < o.len() && o[k].1 == DeliveryOutcome::Closed implies r.contains(
            #[trigger] o[k].0) by {
            if k < o.len() - 1 {
                assert(front[k] == o[k]);
                assert(rest.contains(front[k].0));
                let j = choose|j: int| 0 <= j < rest.len() && rest[j] == front[k].0;
                assert(r[j] == rest[j]);
            } else {
                assert(r[r.len() - 1] == o.last().0);
            }
        }
        assert forall|j: int| #![trigger r[j]] 0 <= j < r.len() implies exists|k: int|
            0 <= k < o.len() && #[trigger] o[k] == (r[j], DeliveryOutcome::Closed) by {
            if j < rest.len() {
                assert(r[j] == rest[j]);
                let k = choose|k: int|
                    0 <= k < front.len() && #[trigger] front[k] == (rest[j], DeliveryOutcome::Closed);
                assert(o[k] == front[k]);
            } else {
                assert(o[o.len() - 1] == (r[j], DeliveryOutcome::Closed));
            }
        }
    }
}

/// See [`failed_ids`].
pub fn subscribers_to_remove(outcomes: &Vec<(FanoutId, DeliveryOutcome)>) -> (r: Vec<FanoutId>)
    ensures
        r@ == failed_ids(outcomes@),
        forall|k: int|
            0 <= k < outcomes@.len() && outcomes@[k].1 == DeliveryOutcome::Closed ==> r@.contains(
                #[trigger] outcomes@[k].0,
            ),
        forall|j: int|
            #![trigger r@[j]]
            0 <= j < r@.len() ==> exists|k: int|
                0 <= k < outcomes@.len() && #[trigger] outcomes@[k] == (r@[j], DeliveryOutcome::Closed),
{
    proof {
        lemma_failed_ids_exact(outcomes@);
    }
    let mut r: Vec<FanoutId> = Vec::new();
    let mut i: usize = 0;
    while i < outcomes.len()
        invariant
            i <= outcomes@.len(),
            r@ == failed_ids(outcomes@.take(i as int)),
        decreases outcomes@.len() - i,
    {
        assert(outcomes@.take(i + 1).drop_last() =~= outcomes@.take(i as int));
        if outcomes[i].1 == DeliveryOutcome::Closed {
            r.push(outcomes[i].0);
        }
        i += 1;
    }
    assert(outcomes@.take(outcomes@.len() as int) =~= outcomes@);
    r
}

/// The error for a send to an id that no subscriber has.
pub open spec fn not_found_message(id: FanoutId) -> Seq<char> {
    "未找到订阅者 FanoutId("@ + decimal(id.index() as nat) + ")"@
}

/// The error for a send to an id that no subscriber has, as the fan-out
/// reports it.
pub fn subscriber_not_found(id: FanoutId) -> (e: SinkError)
    ensures
        e matches SinkError::Send(m) && m@ == not_found_message(id),
{
    let mut m = String::new();
    m.append("未找到订阅者 FanoutId(");
    push_decimal(&mut m, id.0 as u64);
    m.append(")");
    SinkError::Send(m)
}

} // verus!
