//! Streaming fan-out registry: one producer publishes each outgoing batch
//! exactly once; each subscriber owns an independent bounded queue of
//! copies. A subscriber whose queue is full never blocks the producer: it
//! observes a lag signal instead and is responsible for resynchronizing.

use vstd::prelude::*;

verus! {

/// One produced batch, identified by the record it carries.
#[derive(Clone, Debug)]
pub struct DataBatch {
    pub record_id: String,
}

impl View for DataBatch {
    type V = Seq<char>;

    open spec fn view(&self) -> Seq<char> {
        self.record_id@
    }
}

impl DeepView for DataBatch {
    type V = Seq<char>;

    open spec fn deep_view(&self) -> Seq<char> {
        self.record_id@
    }
}

/// One subscription: a named downstream peer with its own bounded queue.
#[derive(Clone, Debug)]
pub struct Subscriber {
    pub name: String,
    pub capacity: usize,
    pub queue: Vec<DataBatch>,
    pub lagged: bool,
}

/// The mathematical value of a [`Subscriber`].
#[verifier::ext_equal]
pub struct SubscriberModel {
    pub name: Seq<char>,
    pub capacity: nat,
    pub queue: Seq<Seq<char>>,
    pub lagged: bool,
}

impl View for Subscriber {
    type V = SubscriberModel;

    open spec fn view(&self) -> SubscriberModel {
        SubscriberModel {
            name: self.name@,
            capacity: self.capacity as nat,
            queue: self.queue.deep_view(),
            lagged: self.lagged,
        }
    }
}

impl DeepView for Subscriber {
    type V = SubscriberModel;

    open spec fn deep_view(&self) -> SubscriberModel {
        self.view()
    }
}

/// What one publish does to one subscriber: a queue with room takes a copy
/// of the batch; a full queue drops it and raises the lag signal instead.
/// The producer is never asked to wait.
pub open spec fn offered(s: SubscriberModel, id: Seq<char>) -> SubscriberModel {
    if s.queue.len() < s.capacity {
        SubscriberModel { queue: s.queue.push(id), ..s }
    } else {
        SubscriberModel { lagged: true, ..s }
    }
}

/// The subscriber names, in subscription order.
pub open spec fn subscriber_names(subs: Seq<SubscriberModel>) -> Seq<Seq<char>> {
    Seq::new(subs.len(), |i: int| subs[i].name)
}

/// What one publish does to the whole registry.
pub open spec fn offered_all(subs: Seq<SubscriberModel>, id: Seq<char>) -> Seq<SubscriberModel> {
    Seq::new(subs.len(), |i: int| offered(subs[i], id))
}

/// A run of publishes, in order.
pub open spec fn publish_run(
    pre: Seq<SubscriberModel>,
    post: Seq<SubscriberModel>,
    ids: Seq<Seq<char>>,
) -> bool
    decreases ids.len(),
{
    if ids.len() == 0 {
        post == pre
    } else {
        publish_run(offered_all(pre, ids[0]), post, ids.skip(1))
    }
}

/// What one receive returns: the lag signal (consumed by observing it),
/// the oldest queued batch, or nothing.
#[derive(Debug)]
pub enum RecvOutcome {
    Lagged,
    Empty,
    Batch(DataBatch),
}

/// The fan-out registry itself.
pub struct FanOut {
    subs: Vec<Subscriber>,
}

impl FanOut {
    /// The subscriptions, as mathematical values.
    pub closed spec fn subs_view(&self) -> Seq<SubscriberModel> {
        self.subs.deep_view()
    }

    /// A registry with no subscriptions yet.
    pub fn new() -> (r: FanOut)
        ensures
            r.subs_view() == Seq::<SubscriberModel>::empty(),
    {
        let r = FanOut { subs: Vec::new() };
        assert(r.subs_view() =~= Seq::<SubscriberModel>::empty());
        r
    }

    /// How many peers are subscribed.
    pub fn subscriber_count(&self) -> (r: usize)
        ensures
            r == self.subs_view().len(),
    {
        self.subs.len()
    }

    /// The name of the subscriber at `idx`.
    pub fn subscriber_name(&self, idx: usize) -> (r: &String)
        requires
            idx < self.subs_view().len(),
        ensures
            r@ == self.subs_view()[idx as int].name,
    {
        &self.subs[idx].name
    }

    /// Whether the subscriber at `idx` has the lag signal raised.
    pub fn is_lagged(&self, idx: usize) -> (r: bool)
        requires
            idx < self.subs_view().len(),
        ensures
            r == self.subs_view()[idx as int].lagged,
    {
        self.subs[idx].lagged
    }

    /// Open a new subscription for the named peer with the given queue
    /// capacity; it starts with an empty queue and no lag.
    pub fn subscribe(&mut self, name: String, capacity: usize) -> (r: usize)
        ensures
            final(self).subs_view() == old(self).subs_view().push(
                SubscriberModel {
                    name: name@,
                    capacity: capacity as nat,
                    queue: Seq::<Seq<char>>::empty(),
                    lagged: false,
                },
            ),
            r == old(self).subs_view().len(),
    {
        let r = self.subs.len();
        let sub = Subscriber { name, capacity, queue: Vec::new(), lagged: false };
        let ghost subm = sub@;
        proof {
            assert(subm.queue =~= Seq::<Seq<char>>::empty());
            assert(subm =~= SubscriberModel {
                name: subm.name,
                capacity: capacity as nat,
                queue: Seq::<Seq<char>>::empty(),
                lagged: false,
            });
        }
        self.subs.push(sub);
        proof {
            assert(self.subs_view() =~~= old(self).subs_view().push(subm));
        }
        r
    }

    /// Offer one batch to the subscriber at `idx`: delivered when its
    /// queue has room, dropped with the lag signal raised when not.
    /// Returns whether it was delivered.
    pub fn push_to(&mut self, idx: usize, batch: &DataBatch) -> (r: bool)
        requires
            idx < old(self).subs_view().len(),
        ensures
            final(self).subs_view() == old(self).subs_view().update(
                idx as int,
                offered(old(self).subs_view()[idx as int], batch@),
            ),
            r == (old(self).subs_view()[idx as int].queue.len() < old(self).subs_view()[idx
                as int].capacity),
    {
        let ghost pre = self.subs_view();
        let sub = &self.subs[idx];
        if sub.queue.len() < sub.capacity {
            let copy = DataBatch { record_id: batch.record_id.clone() };
            let mut taken = self.subs.remove(idx);
            taken.queue.push(copy);
            self.subs.insert(idx, taken);
            proof {
                assert(self.subs_view() =~~= pre.update(idx as int, offered(pre[idx as int], batch@)));
            }
            true
        } else {
            let mut taken = self.subs.remove(idx);
            taken.lagged = true;
            self.subs.insert(idx, taken);
            proof {
                assert(self.subs_view() =~~= pre.update(idx as int, offered(pre[idx as int], batch@)));
            }
            false
        }
    }

    /// Publish one batch to every subscriber. Queues with room take it in
    /// publish order; full queues raise their lag signal; the producer
    /// never waits on any of them.
    pub fn publish(&mut self, batch: &DataBatch)
        ensures
            final(self).subs_view() == offered_all(old(self).subs_view(), batch@),
    {
        let n = self.subs.len();
        let mut k: usize = 0;
        while k < n
            invariant
                n == old(self).subs_view().len(),
                n == self.subs_view().len(),
                0 <= k <= n,
                forall|i: int|
                    0 <= i < k ==> self.subs_view()[i] == offered(
                        old(self).subs_view()[i],
                        batch@,
                    ),
                forall|i: int| k <= i < n ==> self.subs_view()[i] == old(self).subs_view()[i],
            decreases n - k,
        {
            self.push_to(k, batch);
            k += 1;
        }
        assert(self.subs_view() =~~= offered_all(old(self).subs_view(), batch@));
    }

    /// Receive for the subscriber at `idx`. An outstanding lag signal is
    /// delivered first (and consumed); otherwise the oldest queued batch
    /// is handed out in publish order.
    pub fn recv(&mut self, idx: usize) -> (r: RecvOutcome)
        requires
            idx < old(self).subs_view().len(),
        ensures
            final(self).subs_view().len() == old(self).subs_view().len(),
            forall|i: int|
                0 <= i < old(self).subs_view().len() && i != idx as int ==> final(self).subs_view()[i] == old(self).subs_view()[i],
            ({
                let pre = old(self).subs_view()[idx as int];
                let post = final(self).subs_view()[idx as int];
                if pre.lagged {
                    r is Lagged && post == SubscriberModel { lagged: false, ..pre }
                } else if pre.queue.len() == 0 {
                    r is Empty && post == pre
                } else {
                    match r {
                        RecvOutcome::Batch(b) => b@ == pre.queue[0] && post == SubscriberModel {
                            queue: pre.queue.skip(1),
                            ..pre
                        },
                        _ => false,
                    }
                }
            }),
    {
        let ghost pre = self.subs_view();
        let sub = &self.subs[idx];
        if sub.lagged {
            let mut taken = self.subs.remove(idx);
            taken.lagged = false;
            self.subs.insert(idx, taken);
            proof {
                assert(self.subs_view() =~~= pre.update(
                    idx as int,
                    SubscriberModel { lagged: false, ..pre[idx as int] },
                ));
            }
            RecvOutcome::Lagged
        } else if sub.queue.len() == 0 {
            RecvOutcome::Empty
        } else {
            let mut taken = self.subs.remove(idx);
            let b = taken.queue.remove(0);
            self.subs.insert(idx, taken);
            proof {
                assert(taken@.queue =~= pre[idx as int].queue.skip(1));
                assert(self.subs_view() =~~= pre.update(
                    idx as int,
                    SubscriberModel { queue: pre[idx as int].queue.skip(1), ..pre[idx as int] },
                ));
            }
            RecvOutcome::Batch(b)
        }
    }
}

/// Over any run of publishes with no interleaved receives, a subscriber
/// that starts with an empty queue and room for the whole run receives
/// every batch, in publish order, with no lag signal raised; one whose
/// capacity is exceeded keeps exactly its first `capacity` batches and
/// observes the lag signal instead of ever blocking the publisher.
pub proof fn lemma_publish_run_bounded(
    pre: Seq<SubscriberModel>,
    post: Seq<SubscriberModel>,
    ids: Seq<Seq<char>>,
    i: int,
)
    requires
        publish_run(pre, post, ids),
        0 <= i < pre.len(),
        pre[i].queue.len() == 0,
        !pre[i].lagged,
    ensures
        post.len() == pre.len(),
        post[i].name == pre[i].name,
        post[i].capacity == pre[i].capacity,
        ids.len() <= pre[i].capacity ==> post[i].queue == ids && !post[i].lagged,
        ids.len() > pre[i].capacity ==> post[i].queue == ids.take(pre[i].capacity as int)
            && post[i].lagged,
    decreases ids.len(),
{
    lemma_publish_run_from(pre, post, ids, i, pre[i].queue);
    if ids.len() <= pre[i].capacity {
        assert(pre[i].queue + ids =~= ids);
    } else {
        assert((pre[i].queue + ids).take(pre[i].capacity as int) =~= ids.take(
            pre[i].capacity as int,
        ));
    }
}

/// Generalization of [`lemma_publish_run_bounded`] to a subscriber whose
/// queue already holds `start` batches.
proof fn lemma_publish_run_from(
    pre: Seq<SubscriberModel>,
    post: Seq<SubscriberModel>,
    ids: Seq<Seq<char>>,
    i: int,
    start: Seq<Seq<char>>,
)
    requires
        publish_run(pre, post, ids),
        0 <= i < pre.len(),
        pre[i].queue == start,
        start.len() <= pre[i].capacity,
        !pre[i].lagged,
    ensures
        post.len() == pre.len(),
        post[i].name == pre[i].name,
        post[i].capacity == pre[i].capacity,
        start.len() + ids.len() <= pre[i].capacity ==> post[i].queue == start + ids
            && !post[i].lagged,
        start.len() + ids.len() > pre[i].capacity ==> post[i].queue == (start + ids).take(
            pre[i].capacity as int,
        ) && post[i].lagged,
    decreases ids.len(),
{
    if ids.len() == 0 {
        assert(start + ids =~= start);
    } else {
        let mid = offered_all(pre, ids[0]);
        assert(mid[i] == offered(pre[i], ids[0]));
        if start.len() < pre[i].capacity {
            lemma_publish_run_from(mid, post, ids.skip(1), i, start.push(ids[0]));
            assert(start.push(ids[0]) + ids.skip(1) =~= start + ids);
            if start.len() + ids.len() > pre[i].capacity {
                assert((start.push(ids[0]) + ids.skip(1)).take(pre[i].capacity as int) =~= (start
                    + ids).take(pre[i].capacity as int));
            }
        } else {
            lemma_publish_run_lagged(mid, post, ids.skip(1), i);
            assert(mid[i].queue == start);
            assert((start + ids).take(pre[i].capacity as int) =~= start);
        }
    }
}

/// A subscriber whose lag signal is already raised keeps its queue and its
/// lag signal across any further run of publishes.
proof fn lemma_publish_run_lagged(
    pre: Seq<SubscriberModel>,
    post: Seq<SubscriberModel>,
    ids: Seq<Seq<char>>,
    i: int,
)
    requires
        publish_run(pre, post, ids),
        0 <= i < pre.len(),
        pre[i].lagged,
        pre[i].queue.len() >= pre[i].capacity,
    ensures
        post.len() == pre.len(),
        post[i] == pre[i],
    decreases ids.len(),
{
    if ids.len() > 0 {
        let mid = offered_all(pre, ids[0]);
        assert(mid[i] == offered(pre[i], ids[0]));
        assert(mid[i] =~= pre[i]);
        lemma_publish_run_lagged(mid, post, ids.skip(1), i);
    }
}

} // verus!
