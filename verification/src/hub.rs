//! The broadcast hub: a typed publish/subscribe mechanism. One hub per
//! event kind; each subscriber owns an independent bounded buffer.
//! Delivery to one subscriber is independent of the others: publishing
//! never blocks, and a closed subscriber, or one whose buffer is full,
//! is dropped rather than stalling the publisher. A subscriber only
//! sees events published after it subscribed, and filtering (by room,
//! by target participant) is the consumer's business — the hub is not
//! room-aware.

use vstd::prelude::*;
use crate::seq_util::{lemma_filter_keeps_distinct_keys, lemma_filter_push, lemma_filter_subset};

verus! {

/// One subscriber's receive handle: a bounded buffer of undelivered
/// events, closed once the consumer unsubscribes.
pub struct Subscriber<T> {
    pub id: u64,
    pub capacity: usize,
    pub closed: bool,
    pub buffer: Vec<T>,
}

/// The mathematical state of one subscriber.
#[verifier::ext_equal]
pub struct SubscriberModel<T> {
    pub id: u64,
    pub capacity: usize,
    pub closed: bool,
    pub buffer: Seq<T>,
}

impl<T> View for Subscriber<T> {
    type V = SubscriberModel<T>;

    open spec fn view(&self) -> SubscriberModel<T> {
        SubscriberModel {
            id: self.id,
            capacity: self.capacity,
            closed: self.closed,
            buffer: self.buffer@,
        }
    }
}

/// The mathematical state of a hub.
#[verifier::ext_equal]
pub struct HubModel<T> {
    pub subscribers: Seq<SubscriberModel<T>>,
    pub next_id: u64,
}

/// A typed topic: the subscribers currently registered for one event
/// kind, plus the id the next subscriber will receive.
pub struct Hub<T> {
    pub subscribers: Vec<Subscriber<T>>,
    pub next_id: u64,
}

/// The views of a sequence of subscribers.
pub open spec fn sub_views<T>(s: Seq<Subscriber<T>>) -> Seq<SubscriberModel<T>> {
    s.map_values(|x: Subscriber<T>| x@)
}

impl<T> View for Hub<T> {
    type V = HubModel<T>;

    open spec fn view(&self) -> HubModel<T> {
        HubModel { subscribers: sub_views(self.subscribers@), next_id: self.next_id }
    }
}

/// Whether a publish is delivered to this subscriber: it is open and
/// its buffer has room. Everyone else is dropped by the publish.
pub open spec fn sub_delivers<T>() -> spec_fn(SubscriberModel<T>) -> bool {
    |s: SubscriberModel<T>| !s.closed && s.buffer.len() < s.capacity
}

/// `post` is `pre` with one more event in the buffer — an event that
/// `T::clone` may return for `event`.
pub open spec fn event_appended<T: Clone>(
    pre: SubscriberModel<T>,
    post: SubscriberModel<T>,
    event: T,
) -> bool {
    &&& post.id == pre.id
    &&& post.capacity == pre.capacity
    &&& post.closed == pre.closed
    &&& post.buffer.len() == pre.buffer.len() + 1
    &&& post.buffer.drop_last() == pre.buffer
    &&& cloned::<T>(event, post.buffer.last())
}

/// What one publish does: exactly the delivering subscribers survive,
/// in order, and each of their buffers gains its own copy of `event`.
pub open spec fn publish_post<T: Clone>(
    pre: Seq<SubscriberModel<T>>,
    post: Seq<SubscriberModel<T>>,
    event: T,
) -> bool {
    &&& post.len() == pre.filter(sub_delivers()).len()
    &&& (forall|j: int|
        0 <= j < post.len() ==> event_appended(
            pre.filter(sub_delivers())[j],
            #[trigger] post[j],
            event,
        ))
}

/// Whether some subscriber carries `sid`.
pub open spec fn contains_sub<T>(subs: Seq<SubscriberModel<T>>, sid: u64) -> bool {
    exists|i: int| 0 <= i < subs.len() && subs[i].id == sid
}

/// The index of the subscriber carrying `sid`.
pub open spec fn sub_index<T>(subs: Seq<SubscriberModel<T>>, sid: u64) -> int {
    choose|i: int| 0 <= i < subs.len() && subs[i].id == sid
}

/// Subscriber ids are pairwise distinct and below `next_id`.
pub open spec fn sub_ids_ok<T>(subs: Seq<SubscriberModel<T>>, next_id: u64) -> bool {
    &&& (forall|i: int, j: int|
        0 <= i < j < subs.len() ==> (#[trigger] subs[i]).id != (#[trigger] subs[j]).id)
    &&& (forall|i: int| 0 <= i < subs.len() ==> (#[trigger] subs[i]).id < next_id)
}

impl<T: Clone> Hub<T> {
    /// Subscriber ids are pairwise distinct and below `next_id`.
    pub open spec fn inv(&self) -> bool {
        sub_ids_ok(self@.subscribers, self@.next_id)
    }

    /// A hub with no subscribers.
    pub fn new() -> (r: Hub<T>)
        ensures
            r.inv(),
            r@.subscribers == Seq::<SubscriberModel<T>>::empty(),
            r@.next_id == 0,
    {
        let r = Hub { subscribers: Vec::new(), next_id: 0 };
        proof {
            assert(r@.subscribers =~= Seq::<SubscriberModel<T>>::empty());
        }
        r
    }

    /// Registers a new subscriber with an empty buffer of the given
    /// bound and returns its id: it sees only events published from now
    /// on. The id bound is a machine limit, not a semantic one.
    pub fn subscribe(&mut self, capacity: usize) -> (sid: u64)
        requires
            old(self).inv(),
            old(self)@.next_id < u64::MAX,
        ensures
            final(self).inv(),
            sid == old(self)@.next_id,
            final(self)@.next_id == old(self)@.next_id + 1,
            final(self)@.subscribers == old(self)@.subscribers.push(
                SubscriberModel {
                    id: sid,
                    capacity: capacity,
                    closed: false,
                    buffer: Seq::<T>::empty(),
                },
            ),
    {
        let sid = self.next_id;
        self.next_id = self.next_id + 1;
        self.subscribers.push(Subscriber { id: sid, capacity, closed: false, buffer: Vec::new() });
        proof {
            assert(self@.subscribers =~= old(self)@.subscribers.push(
                SubscriberModel {
                    id: sid,
                    capacity: capacity,
                    closed: false,
                    buffer: Seq::<T>::empty(),
                },
            ));
        }
        sid
    }

    /// Delivers `event` to every open subscriber with room in its
    /// buffer, each receiving its own copy; every other subscriber is
    /// dropped. Never fails, never blocks on a slow consumer.
    pub fn publish(&mut self, event: T)
        requires
            old(self).inv(),
        ensures
            final(self).inv(),
            final(self)@.next_id == old(self)@.next_id,
            publish_post(old(self)@.subscribers, final(self)@.subscribers, event),
    {
        let ghost pre = old(self)@.subscribers;
        let ghost keep = sub_delivers::<T>();
        let mut kept: Vec<Subscriber<T>> = Vec::new();
        while self.subscribers.len() > 0
            invariant
                self.subscribers@.len() <= pre.len(),
                sub_views(self.subscribers@) == pre.subrange(
                    pre.len() - self.subscribers@.len(),
                    pre.len() as int,
                ),
                sub_views(kept@).len() == pre.subrange(
                    0,
                    pre.len() - self.subscribers@.len(),
                ).filter(keep).len(),
                forall|j: int|
                    0 <= j < kept@.len() ==> event_appended(
                        pre.subrange(0, pre.len() - self.subscribers@.len()).filter(keep)[j],
                        #[trigger] sub_views(kept@)[j],
                        event,
                    ),
                keep == sub_delivers::<T>(),
                pre == old(self)@.subscribers,
                self.next_id == old(self)@.next_id,
            decreases self.subscribers@.len(),
        {
            let ghost done = pre.len() - self.subscribers@.len();
            let ghost before = self.subscribers@;
            let ghost kept_before = kept@;
            let s = self.subscribers.remove(0);
            proof {
                assert(s@ == sub_views(before)[0]);
                assert(s@ == pre[done]);
                assert(sub_views(self.subscribers@) =~= pre.subrange(
                    done + 1,
                    pre.len() as int,
                )) by {
                    assert forall|j: int| 0 <= j < self.subscribers@.len() implies sub_views(
                        self.subscribers@,
                    )[j] == pre[done + 1 + j] by {
                        assert(self.subscribers@[j] == before[j + 1]);
                        assert(sub_views(before)[j + 1] == pre.subrange(done, pre.len() as int)[j
                            + 1]);
                    }
                }
                assert(pre.subrange(0, done + 1) =~= pre.subrange(0, done).push(pre[done]));
                lemma_filter_push(pre.subrange(0, done), pre[done], keep);
            }
            let deliverable = !s.closed && s.buffer.len() < s.capacity;
            if deliverable {
                let mut s2 = s;
                s2.buffer.push(event.clone());
                proof {
                    assert(s2@.buffer.drop_last() =~= pre[done].buffer);
                }
                kept.push(s2);
                proof {
                    assert(sub_views(kept@) =~= sub_views(kept_before).push(s2@));
                }
            } else {
                proof {
                    assert(!keep(pre[done]));
                }
            }
        }
        proof {
            assert(pre.subrange(0, pre.len() as int) =~= pre);
        }
        self.subscribers = kept;
        proof {
            let posts = sub_views(kept@);
            let pre_f = pre.filter(keep);
            lemma_filter_keeps_distinct_keys(pre, keep, |s: SubscriberModel<T>| s.id as u128);
            lemma_filter_subset(pre, keep);
            assert forall|i: int| 0 <= i < posts.len() implies (#[trigger] posts[i]).id
                < self@.next_id by {
                assert(event_appended(pre_f[i], posts[i], event));
                assert(pre.contains(pre_f[i]));
                let j = choose|j: int| 0 <= j < pre.len() && pre[j] == pre_f[i];
            }
            assert forall|i: int, j: int| 0 <= i < j < posts.len() implies (
            #[trigger] posts[i]).id != (#[trigger] posts[j]).id by {
                assert(event_appended(pre_f[i], posts[i], event));
                assert(event_appended(pre_f[j], posts[j], event));
            }
        }
    }

    /// Hands out the oldest undelivered event of subscriber `sid`, if
    /// any: `None` when the subscriber is unknown or closed, or its
    /// buffer is empty.
    pub fn recv(&mut self, sid: u64) -> (r: Option<T>)
        requires
            old(self).inv(),
        ensures
            final(self).inv(),
            final(self)@.next_id == old(self)@.next_id,
            !contains_sub(old(self)@.subscribers, sid) ==> r is None && final(self)@ == old(
                self,
            )@,
            contains_sub(old(self)@.subscribers, sid) ==> {
                let i = sub_index(old(self)@.subscribers, sid);
                let s = old(self)@.subscribers[i];
                if s.closed || s.buffer.len() == 0 {
                    r is None && final(self)@ == old(self)@
                } else {
                    r == Some(s.buffer[0]) && final(self)@.subscribers == old(
                        self,
                    )@.subscribers.update(
                        i,
                        (SubscriberModel { buffer: s.buffer.drop_first(), ..s }),
                    )
                }
            },
    {
        let n = self.subscribers.len();
        let mut i: usize = 0;
        while i < n
            invariant
                i <= n,
                n == self.subscribers@.len(),
                self == old(self),
                old(self).inv(),
                forall|j: int| 0 <= j < i ==> (#[trigger] sub_views(self.subscribers@)[j]).id
                    != sid,
            decreases n - i,
        {
            if self.subscribers[i].id == sid {
                proof {
                    let olds = old(self)@.subscribers;
                    assert(olds[i as int].id == sid);
                    assert(contains_sub(olds, sid));
                    let k = sub_index(olds, sid);
                    assert(0 <= k < olds.len() && olds[k].id == sid);
                    if k < i as int {
                        assert(olds[k].id != olds[i as int].id);
                    } else if k > i as int {
                        assert(olds[i as int].id != olds[k].id);
                    }
                    assert(k == i as int);
                }
                if self.subscribers[i].closed || self.subscribers[i].buffer.len() == 0 {
                    return None;
                }
                let mut s = self.subscribers.remove(i);
                let x = s.buffer.remove(0);
                self.subscribers.insert(i, s);
                proof {
                    let iv = i as int;
                    let olds = old(self)@.subscribers;
                    assert(s@.buffer =~= olds[iv].buffer.drop_first());
                    assert(self@.subscribers =~= olds.update(
                        iv,
                        (SubscriberModel { buffer: olds[iv].buffer.drop_first(), ..olds[iv] }),
                    ));
                }
                return Some(x);
            }
            i += 1;
        }
        proof {
            assert(!contains_sub(old(self)@.subscribers, sid));
        }
        None
    }

    /// Closes subscriber `sid`: it receives nothing further and the
    /// next publish drops it. Unknown ids are ignored.
    pub fn unsubscribe(&mut self, sid: u64)
        requires
            old(self).inv(),
        ensures
            final(self).inv(),
            final(self)@.next_id == old(self)@.next_id,
            !contains_sub(old(self)@.subscribers, sid) ==> final(self)@ == old(self)@,
            contains_sub(old(self)@.subscribers, sid) ==> {
                let i = sub_index(old(self)@.subscribers, sid);
                final(self)@.subscribers == old(self)@.subscribers.update(
                    i,
                    (SubscriberModel { closed: true, ..old(self)@.subscribers[i] }),
                )
            },
    {
        let n = self.subscribers.len();
        let mut i: usize = 0;
        while i < n
            invariant
                i <= n,
                n == self.subscribers@.len(),
                self == old(self),
                old(self).inv(),
                forall|j: int| 0 <= j < i ==> (#[trigger] sub_views(self.subscribers@)[j]).id
                    != sid,
            decreases n - i,
        {
            if self.subscribers[i].id == sid {
                proof {
                    let olds = old(self)@.subscribers;
                    assert(olds[i as int].id == sid);
                    assert(contains_sub(olds, sid));
                    let k = sub_index(olds, sid);
                    assert(0 <= k < olds.len() && olds[k].id == sid);
                    if k < i as int {
                        assert(olds[k].id != olds[i as int].id);
                    } else if k > i as int {
                        assert(olds[i as int].id != olds[k].id);
                    }
                    assert(k == i as int);
                }
                let mut s = self.subscribers.remove(i);
                s.closed = true;
                self.subscribers.insert(i, s);
                proof {
                    let iv = i as int;
                    let olds = old(self)@.subscribers;
                    assert(self@.subscribers =~= olds.update(
                        iv,
                        (SubscriberModel { closed: true, ..olds[iv] }),
                    ));
                }
                return;
            }
            i += 1;
        }
        proof {
            assert(!contains_sub(old(self)@.subscribers, sid));
        }
    }
}

/// `ms` were handed to `step` one after another, threading the state
/// from `pre` to `post`: what a sequence of publishes, in order, does.
pub open spec fn published_in_order<S, M>(
    step: spec_fn(S, S, M) -> bool,
    pre: S,
    post: S,
    ms: Seq<M>,
) -> bool
    decreases ms.len(),
{
    if ms.len() == 0 {
        post == pre
    } else {
        exists|mid: S| #[trigger]
            step(pre, mid, ms[0]) && published_in_order(step, mid, post, ms.drop_first())
    }
}

/// One more step extends a chain of publishes at its end.
pub proof fn lemma_published_in_order_snoc<S, M>(
    step: spec_fn(S, S, M) -> bool,
    pre: S,
    mid: S,
    post: S,
    ms: Seq<M>,
    m: M,
)
    requires
        published_in_order(step, pre, mid, ms),
        step(mid, post, m),
    ensures
        published_in_order(step, pre, post, ms.push(m)),
    decreases ms.len(),
{
    if ms.len() == 0 {
        assert(mid == pre);
        assert(ms.push(m)[0] == m);
        assert(ms.push(m).drop_first() =~= Seq::<M>::empty());
        assert(published_in_order(step, post, post, ms.push(m).drop_first()));
        assert(step(pre, post, ms.push(m)[0]));
    } else {
        let mid1 = choose|mid1: S| #[trigger]
            step(pre, mid1, ms[0]) && published_in_order(step, mid1, mid, ms.drop_first());
        lemma_published_in_order_snoc(step, mid1, mid, post, ms.drop_first(), m);
        assert(ms.push(m).drop_first() =~= ms.drop_first().push(m));
        assert(ms.push(m)[0] == ms[0]);
        assert(step(pre, mid1, ms.push(m)[0]));
        assert(published_in_order(step, mid1, post, ms.push(m).drop_first()));
    }
}

} // verus!
