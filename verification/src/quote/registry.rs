//! The server's bookkeeping: who subscribed to which tickers, and which
//! streams each client opened. The channels and threads behind them stay
//! with the server; this part decides who is subscribed and who is told.

use crate::text::{string_eq_str, strings_view};
use vstd::prelude::*;

verus! {

/// Whether the strings `a` and `b` read the same.
pub fn string_eq(a: &String, b: &String) -> (r: bool)
    ensures
        r == (a@ == b@),
{
    string_eq_str(a, b.as_str())
}

/// Whether `t` is among `list`.
pub fn contains_string(list: &Vec<String>, t: &String) -> (r: bool)
    ensures
        r == strings_view(list@).contains(t@),
{
    let mut i: usize = 0;
    while i < list.len()
        invariant
            i <= list.len(),
            forall|k: int| 0 <= k < i ==> list@[k]@ != t@,
        decreases list.len() - i,
    {
        if string_eq(&list[i], t) {
            assert(strings_view(list@)[i as int] == t@);
            return true;
        }
        i = i + 1;
    }
    proof {
        if strings_view(list@).contains(t@) {
            let k = choose|k: int| 0 <= k < strings_view(list@).len() && strings_view(list@)[k] == t@;
            assert(list@[k]@ == t@);
        }
    }
    false
}

/// A subscription: its identifier and the tickers it follows.
pub struct Subscription {
    pub id: u32,
    pub tickers: Vec<String>,
}

/// The mathematical value of a [`Subscription`].
pub type SubscriptionView = (u32, Seq<Seq<char>>);

impl View for Subscription {
    type V = SubscriptionView;

    open spec fn view(&self) -> SubscriptionView {
        (self.id, strings_view(self.tickers@))
    }
}

/// The views of a list of subscriptions.
pub open spec fn subscriptions_view(v: Seq<Subscription>) -> Seq<SubscriptionView> {
    v.map_values(|s: Subscription| s@)
}

/// The first index at or after `from` of the subscription `id`, or -1.
pub open spec fn index_of_id(list: Seq<SubscriptionView>, id: u32, from: int) -> int
    decreases list.len() - from,
{
    if from < 0 || from >= list.len() {
        -1
    } else if list[from].0 == id {
        from
    } else {
        index_of_id(list, id, from + 1)
    }
}

/// What `index_of_id` finds: the first subscription `id` at or after
/// `from`.
pub proof fn lemma_index_of_id(list: Seq<SubscriptionView>, id: u32, from: int)
    requires
        0 <= from,
    ensures
        index_of_id(list, id, from) >= 0 ==> from <= index_of_id(list, id, from) < list.len()
            && list[index_of_id(list, id, from)].0 == id,
        index_of_id(list, id, from) < 0 ==> forall|k: int|
            from <= k < list.len() ==> (#[trigger] list[k]).0 != id,
    decreases list.len() - from,
{
    if from < list.len() && list[from].0 != id {
        lemma_index_of_id(list, id, from + 1);
    }
}

/// The subscriptions that follow `ticker`, in the order they were made.
pub open spec fn audience(list: Seq<SubscriptionView>, ticker: Seq<char>) -> Seq<u32>
    decreases list.len(),
{
    if list.len() == 0 {
        seq![]
    } else {
        audience(list.drop_last(), ticker) + if list.last().1.contains(ticker) {
            seq![list.last().0]
        } else {
            seq![]
        }
    }
}

/// A subscription is in the audience of a ticker exactly when some
/// subscription with its identifier follows the ticker.
pub proof fn lemma_audience_members(list: Seq<SubscriptionView>, t: Seq<char>, id: u32)
    ensures
        audience(list, t).contains(id) <==> exists|i: int|
            0 <= i < list.len() && (#[trigger] list[i]).0 == id && list[i].1.contains(t),
    decreases list.len(),
{
    if list.len() > 0 {
        let init = list.drop_last();
        lemma_audience_members(init, t, id);
        let a = audience(init, t);
        let tail: Seq<u32> = if list.last().1.contains(t) {
            seq![list.last().0]
        } else {
            seq![]
        };
        assert(audience(list, t) == a + tail);
        if audience(list, t).contains(id) {
            let k = choose|k: int| 0 <= k < (a + tail).len() && (a + tail)[k] == id;
            if k < a.len() {
                assert(a[k] == id);
                let i = choose|i: int| 0 <= i < init.len() && (#[trigger] init[i]).0 == id && init[i].1.contains(t);
                assert(list[i] == init[i]);
            } else {
                assert(list[list.len() - 1].0 == id);
            }
        }
        if exists|i: int| 0 <= i < list.len() && (#[trigger] list[i]).0 == id && list[i].1.contains(t) {
            let i = choose|i: int| 0 <= i < list.len() && (#[trigger] list[i]).0 == id && list[i].1.contains(t);
            if i < list.len() - 1 {
                assert(init[i] == list[i]);
                assert(a.contains(id));
                let k = choose|k: int| 0 <= k < a.len() && a[k] == id;
                assert((a + tail)[k] == id);
            } else {
                assert((a + tail)[a.len() as int] == id);
            }
        }
    }
}

/// A new subscription is told of exactly the tickers it follows.
pub proof fn lemma_subscribe_audience(s: SubscriptionsView, tickers: Seq<Seq<char>>, t: Seq<char>)
    requires
        subscriptions_wf(s),
    ensures
        audience(s.list.push((s.next_id, tickers)), t).contains(s.next_id) <==> tickers.contains(t),
{
    let l = s.list.push((s.next_id, tickers));
    lemma_audience_members(l, t, s.next_id);
    if exists|i: int| 0 <= i < l.len() && (#[trigger] l[i]).0 == s.next_id && l[i].1.contains(t) {
        let i = choose|i: int| 0 <= i < l.len() && (#[trigger] l[i]).0 == s.next_id && l[i].1.contains(t);
        if i < s.list.len() {
            assert(l[i] == s.list[i]);
        }
    }
    assert(l[s.list.len() as int] == (s.next_id, tickers));
}

/// Once unsubscribed, a subscription is told of no ticker any more.
pub proof fn lemma_unsubscribe_audience(s: SubscriptionsView, id: u32, t: Seq<char>)
    requires
        subscriptions_wf(s),
    ensures
        !audience(
            if index_of_id(s.list, id, 0) >= 0 {
                s.list.remove(index_of_id(s.list, id, 0))
            } else {
                s.list
            },
            t,
        ).contains(id),
{
    lemma_index_of_id(s.list, id, 0);
    let k = index_of_id(s.list, id, 0);
    let l = if k >= 0 {
        s.list.remove(k)
    } else {
        s.list
    };
    lemma_audience_members(l, t, id);
    if exists|i: int| 0 <= i < l.len() && (#[trigger] l[i]).0 == id && l[i].1.contains(t) {
        let i = choose|i: int| 0 <= i < l.len() && (#[trigger] l[i]).0 == id && l[i].1.contains(t);
        if k >= 0 {
            let j = if i < k { i } else { i + 1 };
            assert(l[i] == s.list[j]);
            assert(j != k);
            if j < k {
                assert(s.list[j].0 != s.list[k].0);
            } else {
                assert(s.list[k].0 != s.list[j].0);
            }
        } else {
            assert(s.list[i].0 != id);
        }
    }
}

/// The subscriptions after a new one to `tickers`, which gets the next
/// identifier.
pub open spec fn spec_subscribed(s: SubscriptionsView, tickers: Seq<Seq<char>>) -> SubscriptionsView {
    SubscriptionsView { next_id: (s.next_id + 1) as u32, list: s.list.push((s.next_id, tickers)) }
}

/// The subscriptions after ending `id`: unchanged when there is none.
pub open spec fn spec_unsubscribed(s: SubscriptionsView, id: u32) -> SubscriptionsView {
    if index_of_id(s.list, id, 0) >= 0 {
        SubscriptionsView { list: s.list.remove(index_of_id(s.list, id, 0)), ..s }
    } else {
        s
    }
}

/// A call that changes the subscriptions.
pub enum SubscriptionCall {
    Subscribe(Seq<Seq<char>>),
    Unsubscribe(u32),
}

/// The subscriptions after `calls`, made in turn.
pub open spec fn spec_after_calls(s: SubscriptionsView, calls: Seq<SubscriptionCall>) -> SubscriptionsView
    decreases calls.len(),
{
    if calls.len() == 0 {
        s
    } else {
        let before = spec_after_calls(s, calls.drop_last());
        match calls.last() {
            SubscriptionCall::Subscribe(ts) => spec_subscribed(before, ts),
            SubscriptionCall::Unsubscribe(id) => spec_unsubscribed(before, id),
        }
    }
}

/// The number of subscribe calls among `calls`.
pub open spec fn subscribe_count(calls: Seq<SubscriptionCall>) -> nat
    decreases calls.len(),
{
    if calls.len() == 0 {
        0
    } else {
        subscribe_count(calls.drop_last()) + if calls.last() is Subscribe {
            1nat
        } else {
            0nat
        }
    }
}

/// The identifiers the subscribe calls among `calls` get, in call order.
pub open spec fn issued_ids(s: SubscriptionsView, calls: Seq<SubscriptionCall>) -> Seq<u32>
    decreases calls.len(),
{
    if calls.len() == 0 {
        seq![]
    } else {
        let prev = issued_ids(s, calls.drop_last());
        if calls.last() is Subscribe {
            prev.push(spec_after_calls(s, calls.drop_last()).next_id)
        } else {
            prev
        }
    }
}

/// Ending a subscription keeps the identifiers distinct and below the next
/// one.
proof fn lemma_unsubscribed_wf(s: SubscriptionsView, id: u32)
    requires
        subscriptions_wf(s),
    ensures
        subscriptions_wf(spec_unsubscribed(s, id)),
        spec_unsubscribed(s, id).next_id == s.next_id,
{
    let k = index_of_id(s.list, id, 0);
    if k >= 0 {
        lemma_index_of_id(s.list, id, 0);
        let l = s.list.remove(k);
        assert forall|a: int, b: int| 0 <= a < b < l.len() implies l[a].0 != l[b].0 by {
            let ia = if a < k { a } else { a + 1 };
            let ib = if b < k { b } else { b + 1 };
            assert(l[a] == s.list[ia] && l[b] == s.list[ib]);
        }
        assert forall|a: int| 0 <= a < l.len() implies (#[trigger] l[a]).0 < s.next_id by {
            let ia = if a < k { a } else { a + 1 };
            assert(l[a] == s.list[ia]);
        }
    }
}

/// Identifiers are handed out in call order and never twice: from
/// subscriptions whose next identifier is `n`, the subscribe calls among
/// `calls` get `n`, `n + 1`, `n + 2`, ... in turn (from a new registry,
/// `0, 1, 2, ...`), whatever unsubscribe calls come between; afterwards the
/// next identifier is `n` plus their number, and the identifiers held stay
/// distinct.
pub proof fn lemma_ids_in_call_order(s: SubscriptionsView, calls: Seq<SubscriptionCall>)
    requires
        subscriptions_wf(s),
        s.next_id + subscribe_count(calls) <= u32::MAX,
    ensures
        spec_after_calls(s, calls).next_id == s.next_id + subscribe_count(calls),
        subscriptions_wf(spec_after_calls(s, calls)),
        issued_ids(s, calls) == Seq::new(subscribe_count(calls), |i: int| (s.next_id + i) as u32),
    decreases calls.len(),
{
    if calls.len() > 0 {
        let init = calls.drop_last();
        lemma_ids_in_call_order(s, init);
        let before = spec_after_calls(s, init);
        match calls.last() {
            SubscriptionCall::Subscribe(ts) => {
                let after = spec_subscribed(before, ts);
                assert forall|a: int, b: int| 0 <= a < b < after.list.len() implies after.list[a].0
                    != after.list[b].0 by {
                    if b == before.list.len() {
                        assert(before.list[a].0 < before.next_id);
                    } else {
                        assert(after.list[a] == before.list[a] && after.list[b] == before.list[b]);
                    }
                }
                assert forall|a: int| 0 <= a < after.list.len() implies (#[trigger] after.list[a]).0
                    < after.next_id by {
                    if a < before.list.len() {
                        assert(after.list[a] == before.list[a]);
                    }
                }
                assert(issued_ids(s, calls) =~= Seq::new(
                    subscribe_count(calls),
                    |i: int| (s.next_id + i) as u32,
                ));
            },
            SubscriptionCall::Unsubscribe(id) => {
                lemma_unsubscribed_wf(before, id);
            },
        }
    }
}

/// An identifier already handed out that is no longer subscribed is never
/// subscribed again by later calls, so no later quote goes to it; an
/// unsubscribe call ends such an identifier for good.
pub proof fn lemma_gone_stays_gone(s: SubscriptionsView, calls: Seq<SubscriptionCall>, id: u32, t: Seq<char>)
    requires
        subscriptions_wf(s),
        id < s.next_id,
        index_of_id(s.list, id, 0) < 0,
        s.next_id + subscribe_count(calls) <= u32::MAX,
    ensures
        index_of_id(spec_after_calls(s, calls).list, id, 0) < 0,
        !audience(spec_after_calls(s, calls).list, t).contains(id),
    decreases calls.len(),
{
    let after = spec_after_calls(s, calls);
    if calls.len() > 0 {
        let init = calls.drop_last();
        lemma_gone_stays_gone(s, init, id, t);
        lemma_ids_in_call_order(s, init);
        let before = spec_after_calls(s, init);
        lemma_index_of_id(before.list, id, 0);
        match calls.last() {
            SubscriptionCall::Subscribe(ts) => {
                assert(id < before.next_id);
                assert forall|k: int| 0 <= k < after.list.len() implies (#[trigger] after.list[k]).0 != id by {
                    if k < before.list.len() {
                        assert(after.list[k] == before.list[k]);
                    }
                }
            },
            SubscriptionCall::Unsubscribe(u) => {
                lemma_unsubscribed_wf(before, u);
                lemma_index_of_id(before.list, u, 0);
                assert(after == spec_unsubscribed(before, u));
                if index_of_id(before.list, u, 0) >= 0 {
                    let k0 = index_of_id(before.list, u, 0);
                    assert(after.list == before.list.remove(k0));
                    assert forall|k: int| 0 <= k < after.list.len() implies (#[trigger] after.list[k]).0 != id by {
                        let j = if k < k0 { k } else { k + 1 };
                        assert(after.list[k] == before.list[j]);
                    }
                }
            },
        }
        lemma_index_of_id(after.list, id, 0);
        if index_of_id(after.list, id, 0) >= 0 {
            assert(after.list[index_of_id(after.list, id, 0)].0 == id);
        }
    } else {
        lemma_index_of_id(s.list, id, 0);
    }
    lemma_audience_members(after.list, t, id);
    lemma_index_of_id(after.list, id, 0);
}

/// After an unsubscribe call for an identifier already handed out, no later
/// quote goes to it, whatever calls follow.
pub proof fn lemma_unsubscribed_never_told(
    s: SubscriptionsView,
    id: u32,
    calls: Seq<SubscriptionCall>,
    t: Seq<char>,
)
    requires
        subscriptions_wf(s),
        id < s.next_id,
        s.next_id + subscribe_count(calls) <= u32::MAX,
    ensures
        !audience(spec_after_calls(spec_unsubscribed(s, id), calls).list, t).contains(id),
{
    lemma_unsubscribed_wf(s, id);
    let u = spec_unsubscribed(s, id);
    lemma_index_of_id(s.list, id, 0);
    let k = index_of_id(s.list, id, 0);
    lemma_index_of_id(u.list, id, 0);
    if index_of_id(u.list, id, 0) >= 0 {
        let j = index_of_id(u.list, id, 0);
        if k >= 0 {
            let i = if j < k { j } else { j + 1 };
            assert(u.list[j] == s.list[i]);
            assert(i != k);
            if i < k {
                assert(s.list[i].0 != s.list[k].0);
            } else {
                assert(s.list[k].0 != s.list[i].0);
            }
        } else {
            assert(s.list[j].0 != id);
        }
    }
    lemma_gone_stays_gone(u, calls, id, t);
}

/// With distinct identifiers, each subscription that follows a ticker is in
/// its audience exactly once: a quote goes to each follower once.
pub proof fn lemma_audience_once(s: SubscriptionsView, t: Seq<char>)
    requires
        subscriptions_wf(s),
    ensures
        audience(s.list, t).no_duplicates(),
    decreases s.list.len(),
{
    let l = s.list;
    if l.len() > 0 {
        let init = SubscriptionsView { next_id: s.next_id, list: l.drop_last() };
        assert(subscriptions_wf(init)) by {
            assert forall|a: int, b: int| 0 <= a < b < init.list.len() implies init.list[a].0 != init.list[b].0 by {
                assert(init.list[a] == l[a] && init.list[b] == l[b]);
            }
            assert forall|a: int| 0 <= a < init.list.len() implies (#[trigger] init.list[a]).0 < s.next_id by {
                assert(init.list[a] == l[a]);
            }
        }
        lemma_audience_once(init, t);
        let a = audience(init.list, t);
        if l.last().1.contains(t) {
            let id = l.last().0;
            lemma_audience_members(init.list, t, id);
            if a.contains(id) {
                let i = choose|i: int| 0 <= i < init.list.len() && (#[trigger] init.list[i]).0 == id
                    && init.list[i].1.contains(t);
                assert(init.list[i] == l[i]);
                assert(l[i].0 != l[l.len() - 1].0);
            }
            let r = a + seq![id];
            assert(audience(l, t) == r);
            assert forall|x: int, y: int| 0 <= x < r.len() && 0 <= y < r.len() && x != y implies r[x]
                != r[y] by {
                if y == a.len() {
                    assert(r[x] == a[x]);
                    assert(!a.contains(id));
                } else if x == a.len() {
                    assert(r[y] == a[y]);
                    assert(!a.contains(id));
                } else {
                    assert(r[x] == a[x] && r[y] == a[y]);
                }
            }
        } else {
            assert(audience(l, t) =~= a);
        }
    }
}

/// The subscriptions, and the next identifier to hand out.
pub struct Subscriptions {
    next_id: u32,
    list: Vec<Subscription>,
}

/// The mathematical value of [`Subscriptions`].
pub struct SubscriptionsView {
    pub next_id: u32,
    pub list: Seq<SubscriptionView>,
}

impl View for Subscriptions {
    type V = SubscriptionsView;

    closed spec fn view(&self) -> SubscriptionsView {
        SubscriptionsView { next_id: self.next_id, list: subscriptions_view(self.list@) }
    }
}

/// Whether the identifiers of `list` are distinct and below `next_id`.
pub open spec fn subscriptions_wf(v: SubscriptionsView) -> bool {
    &&& forall|i: int, j: int| 0 <= i < j < v.list.len() ==> v.list[i].0 != v.list[j].0
    &&& forall|i: int| 0 <= i < v.list.len() ==> (#[trigger] v.list[i]).0 < v.next_id
}

impl Subscriptions {
    /// No subscription yet; identifiers start at zero.
    pub fn new() -> (r: Self)
        ensures
            r@.next_id == 0,
            r@.list == Seq::<SubscriptionView>::empty(),
            subscriptions_wf(r@),
    {
        let r = Subscriptions { next_id: 0, list: Vec::new() };
        assert(r@.list =~= Seq::<SubscriptionView>::empty());
        r
    }

    /// The identifier the next subscription gets.
    pub fn next_id(&self) -> (r: u32)
        ensures
            r == self@.next_id,
    {
        self.next_id
    }

    /// Subscribes to `tickers` under a new identifier, which it returns.
    pub fn subscribe(&mut self, tickers: Vec<String>) -> (id: u32)
        requires
            subscriptions_wf(old(self)@),
            old(self)@.next_id < u32::MAX,
        ensures
            id == old(self)@.next_id,
            final(self)@.next_id == old(self)@.next_id + 1,
            final(self)@.list == old(self)@.list.push((id, strings_view(tickers@))),
            final(self)@ == spec_subscribed(old(self)@, strings_view(tickers@)),
            subscriptions_wf(final(self)@),
    {
        let id = self.next_id;
        self.next_id = self.next_id + 1;
        let ghost before = self.list@;
        self.list.push(Subscription { id, tickers });
        assert(subscriptions_view(self.list@) =~= subscriptions_view(before).push(
            (id, strings_view(tickers@)),
        ));
        id
    }

    /// Ends the subscription `id`; says whether there was one.
    pub fn unsubscribe(&mut self, id: u32) -> (found: bool)
        requires
            subscriptions_wf(old(self)@),
        ensures
            found == (index_of_id(old(self)@.list, id, 0) >= 0),
            found ==> final(self)@.list == old(self)@.list.remove(index_of_id(old(self)@.list, id, 0)),
            !found ==> final(self)@.list == old(self)@.list,
            final(self)@.next_id == old(self)@.next_id,
            final(self)@ == spec_unsubscribed(old(self)@, id),
            subscriptions_wf(final(self)@),
    {
        let ghost l = subscriptions_view(self.list@);
        let mut i: usize = 0;
        while i < self.list.len()
            invariant
                i <= self.list.len(),
                l == subscriptions_view(self.list@),
                l == old(self)@.list,
                self.next_id == old(self).next_id,
                subscriptions_wf(old(self)@),
                index_of_id(l, id, 0) == index_of_id(l, id, i as int),
            decreases self.list.len() - i,
        {
            if self.list[i].id == id {
                self.list.remove(i);
                assert(subscriptions_view(self.list@) =~= l.remove(i as int));
                assert forall|a: int, b: int| 0 <= a < b < subscriptions_view(self.list@).len() implies
                    subscriptions_view(self.list@)[a].0 != subscriptions_view(self.list@)[b].0 by {
                    let ia = if a < i { a } else { a + 1 };
                    let ib = if b < i { b } else { b + 1 };
                    assert(subscriptions_view(self.list@)[a] == l[ia]);
                    assert(subscriptions_view(self.list@)[b] == l[ib]);
                }
                assert forall|a: int| 0 <= a < subscriptions_view(self.list@).len() implies
                    (#[trigger] subscriptions_view(self.list@)[a]).0 < self.next_id by {
                    let ia = if a < i { a } else { a + 1 };
                    assert(subscriptions_view(self.list@)[a] == l[ia]);
                }
                return true;
            }
            i = i + 1;
        }
        false
    }

    /// The subscriptions that follow `ticker`, in the order they were made:
    /// those a new quote of the ticker goes to.
    pub fn audience_of(&self, ticker: &String) -> (r: Vec<u32>)
        ensures
            r@ == audience(self@.list, ticker@),
    {
        let ghost l = subscriptions_view(self.list@);
        let mut r: Vec<u32> = Vec::new();
        let mut i: usize = 0;
        assert(l.take(0) =~= Seq::<SubscriptionView>::empty());
        while i < self.list.len()
            invariant
                i <= self.list.len(),
                l == subscriptions_view(self.list@),
                r@ == audience(l.take(i as int), ticker@),
            decreases self.list.len() - i,
        {
            assert(l.take(i + 1).drop_last() =~= l.take(i as int));
            assert(l.take(i + 1).last() == self.list@[i as int]@);
            if contains_string(&self.list[i].tickers, ticker) {
                r.push(self.list[i].id);
            }
            i = i + 1;
        }
        assert(l.take(i as int) =~= l);
        r
    }
}


/// A stream a client opened: the address it goes to and its subscription.
pub struct Conn {
    pub socket: String,
    pub id: u32,
}

/// The mathematical value of a [`Conn`].
pub type ConnView = (Seq<char>, u32);

impl View for Conn {
    type V = ConnView;

    open spec fn view(&self) -> ConnView {
        (self.socket@, self.id)
    }
}

/// The views of a list of streams.
pub open spec fn conns_view(v: Seq<Conn>) -> Seq<ConnView> {
    v.map_values(|c: Conn| c@)
}

/// The streams filed under one key.
pub struct ConnEntry {
    pub key: String,
    pub conns: Vec<Conn>,
}

/// The mathematical value of a [`ConnEntry`].
pub type EntryView = (Seq<char>, Seq<ConnView>);

impl View for ConnEntry {
    type V = EntryView;

    open spec fn view(&self) -> EntryView {
        (self.key@, conns_view(self.conns@))
    }
}

/// The views of a list of entries.
pub open spec fn entries_view(v: Seq<ConnEntry>) -> Seq<EntryView> {
    v.map_values(|e: ConnEntry| e@)
}

/// Whether some entry of `l` has the key `k`.
pub open spec fn has_key(l: Seq<EntryView>, k: Seq<char>) -> bool {
    exists|i: int| 0 <= i < l.len() && (#[trigger] l[i]).0 == k
}

/// An entry of `l` with the key `k`.
pub open spec fn key_index(l: Seq<EntryView>, k: Seq<char>) -> int {
    choose|i: int| 0 <= i < l.len() && (#[trigger] l[i]).0 == k
}

/// Whether the keys of `l` are distinct.
pub open spec fn keys_distinct(l: Seq<EntryView>) -> bool {
    forall|i: int, j: int| 0 <= i < j < l.len() ==> l[i].0 != l[j].0
}

/// The streams of each key: the book read as a map.
pub open spec fn book_map(l: Seq<EntryView>) -> Map<Seq<char>, Seq<ConnView>> {
    Map::new(|k: Seq<char>| has_key(l, k), |k: Seq<char>| l[key_index(l, k)].1)
}

/// All streams of the book, entry after entry.
pub open spec fn all_conns(l: Seq<EntryView>) -> Seq<ConnView>
    decreases l.len(),
{
    if l.len() == 0 {
        seq![]
    } else {
        all_conns(l.drop_last()) + l.last().1
    }
}

/// With distinct keys, the entry of a key is the one that carries it.
proof fn lemma_key_index(l: Seq<EntryView>, k: Seq<char>, j: int)
    requires
        keys_distinct(l),
        0 <= j < l.len(),
        l[j].0 == k,
    ensures
        has_key(l, k),
        key_index(l, k) == j,
{
    assert(has_key(l, k));
    let i = key_index(l, k);
    if i != j {
        if i < j {
            assert(l[i].0 != l[j].0);
        } else {
            assert(l[j].0 != l[i].0);
        }
    }
}

/// Removing entry `i` from a book with distinct keys removes its key from
/// the map and keeps the others.
proof fn lemma_book_remove(l: Seq<EntryView>, i: int)
    requires
        keys_distinct(l),
        0 <= i < l.len(),
    ensures
        keys_distinct(l.remove(i)),
        book_map(l.remove(i)) == book_map(l).remove(l[i].0),
{
    let r = l.remove(i);
    assert forall|a: int, b: int| 0 <= a < b < r.len() implies r[a].0 != r[b].0 by {
        let ia = if a < i { a } else { a + 1 };
        let ib = if b < i { b } else { b + 1 };
        assert(r[a] == l[ia] && r[b] == l[ib]);
    }
    assert forall|k: Seq<char>| #[trigger] has_key(r, k) == (has_key(l, k) && k != l[i].0) by {
        if has_key(r, k) {
            let a = choose|a: int| 0 <= a < r.len() && (#[trigger] r[a]).0 == k;
            let ia = if a < i { a } else { a + 1 };
            assert(r[a] == l[ia]);
            assert(l[ia].0 == k);
            if k == l[i].0 {
                assert(ia != i);
                if ia < i {
                    assert(l[ia].0 != l[i].0);
                } else {
                    assert(l[i].0 != l[ia].0);
                }
            }
        }
        if has_key(l, k) && k != l[i].0 {
            let b = choose|b: int| 0 <= b < l.len() && (#[trigger] l[b]).0 == k;
            let rb = if b < i { b } else { b - 1 };
            assert(b != i);
            assert(r[rb] == l[b]);
        }
    }
    assert forall|k: Seq<char>| has_key(r, k) implies #[trigger] r[key_index(r, k)].1 == l[key_index(l, k)].1 by {
        let a = key_index(r, k);
        let ia = if a < i { a } else { a + 1 };
        assert(r[a] == l[ia]);
        lemma_key_index(l, k, ia);
    }
    assert(book_map(r) =~= book_map(l).remove(l[i].0));
}

/// Adding an entry with a new key to a book with distinct keys adds it to
/// the map.
proof fn lemma_book_push(l: Seq<EntryView>, e: EntryView)
    requires
        keys_distinct(l),
        !has_key(l, e.0),
    ensures
        keys_distinct(l.push(e)),
        book_map(l.push(e)) == book_map(l).insert(e.0, e.1),
{
    let r = l.push(e);
    assert forall|a: int, b: int| 0 <= a < b < r.len() implies r[a].0 != r[b].0 by {
        if b == l.len() {
            assert(r[a] == l[a]);
        }
    }
    assert forall|k: Seq<char>| #[trigger] has_key(r, k) == (has_key(l, k) || k == e.0) by {
        if has_key(l, k) {
            let b = choose|b: int| 0 <= b < l.len() && (#[trigger] l[b]).0 == k;
            assert(r[b] == l[b]);
        }
        if k == e.0 {
            assert(r[l.len() as int] == e);
        }
        if has_key(r, k) && k != e.0 {
            let a = choose|a: int| 0 <= a < r.len() && (#[trigger] r[a]).0 == k;
            assert(r[a] == l[a]);
        }
    }
    assert forall|k: Seq<char>| has_key(r, k) implies #[trigger] r[key_index(r, k)].1 == (if k == e.0 {
        e.1
    } else {
        l[key_index(l, k)].1
    }) by {
        if k == e.0 {
            lemma_key_index(r, k, l.len() as int);
        } else {
            let b = choose|b: int| 0 <= b < l.len() && (#[trigger] l[b]).0 == k;
            lemma_key_index(l, k, b);
            assert(r[b] == l[b]);
            lemma_key_index(r, k, b);
        }
    }
    assert(book_map(r) =~= book_map(l).insert(e.0, e.1));
}

/// The streams of the clients, filed by key.
pub struct Connections {
    entries: Vec<ConnEntry>,
}

impl View for Connections {
    type V = Seq<EntryView>;

    closed spec fn view(&self) -> Seq<EntryView> {
        entries_view(self.entries@)
    }
}

/// The first index at or after `from` in `conns` of a stream to `socket`,
/// or -1.
pub open spec fn index_of_socket(conns: Seq<ConnView>, socket: Seq<char>, from: int) -> int
    decreases conns.len() - from,
{
    if from < 0 || from >= conns.len() {
        -1
    } else if conns[from].0 == socket {
        from
    } else {
        index_of_socket(conns, socket, from + 1)
    }
}

/// What `index_of_socket` finds: the first stream to `socket` at or after
/// `from`.
pub proof fn lemma_index_of_socket(conns: Seq<ConnView>, socket: Seq<char>, from: int)
    requires
        0 <= from,
    ensures
        index_of_socket(conns, socket, from) >= 0 ==> from <= index_of_socket(conns, socket, from)
            < conns.len() && conns[index_of_socket(conns, socket, from)].0 == socket,
        index_of_socket(conns, socket, from) < 0 ==> forall|k: int|
            from <= k < conns.len() ==> (#[trigger] conns[k]).0 != socket,
    decreases conns.len() - from,
{
    if from < conns.len() && conns[from].0 != socket {
        lemma_index_of_socket(conns, socket, from + 1);
    }
}

/// Adding a stream at the end: the first stream to `socket` stays where it
/// was, and where there was none the new one is found if it goes there.
pub proof fn lemma_index_of_socket_push(conns: Seq<ConnView>, c: ConnView, socket: Seq<char>, from: int)
    requires
        0 <= from <= conns.len(),
    ensures
        index_of_socket(conns.push(c), socket, from) == if index_of_socket(conns, socket, from) >= 0 {
            index_of_socket(conns, socket, from)
        } else if c.0 == socket {
            conns.len() as int
        } else {
            -1
        },
    decreases conns.len() - from,
{
    let p = conns.push(c);
    if from < conns.len() {
        assert(p[from] == conns[from]);
        if conns[from].0 != socket {
            lemma_index_of_socket_push(conns, c, socket, from + 1);
        }
    } else {
        assert(p[from] == c);
        assert(index_of_socket(p, socket, from + 1) == -1);
    }
}

impl Connections {
    /// An empty book.
    pub fn new() -> (r: Self)
        ensures
            r@ == Seq::<EntryView>::empty(),
    {
        let r = Connections { entries: Vec::new() };
        assert(r@ =~= Seq::<EntryView>::empty());
        r
    }

    /// The index of the entry with the key `key`, if any.
    fn find_entry(&self, key: &String) -> (r: Option<usize>)
        ensures
            match r {
                Some(i) => i < self@.len() && self@[i as int].0 == key@,
                None => !has_key(self@, key@),
            },
    {
        let mut i: usize = 0;
        while i < self.entries.len()
            invariant
                i <= self.entries.len(),
                forall|k: int| 0 <= k < i ==> self@[k].0 != key@,
            decreases self.entries.len() - i,
        {
            if string_eq(&self.entries[i].key, key) {
                assert(self@[i as int] == self.entries@[i as int]@);
                return Some(i);
            }
            assert(self@[i as int] == self.entries@[i as int]@);
            i = i + 1;
        }
        None
    }

    /// Files the stream to `socket` with subscription `id` under `key`,
    /// after the streams already there.
    pub fn add(&mut self, key: String, socket: String, id: u32)
        requires
            keys_distinct(old(self)@),
        ensures
            keys_distinct(final(self)@),
            book_map(final(self)@) == book_map(old(self)@).insert(
                key@,
                (if book_map(old(self)@).contains_key(key@) {
                    book_map(old(self)@)[key@]
                } else {
                    Seq::<ConnView>::empty()
                }).push((socket@, id)),
            ),
    {
        let ghost old_v = self@;
        let conn = Conn { socket, id };
        let entry = match self.find_entry(&key) {
            Some(i) => {
                proof {
                    lemma_key_index(old_v, key@, i as int);
                    lemma_book_remove(old_v, i as int);
                }
                let mut e = self.entries.remove(i);
                assert(self@ =~= old_v.remove(i as int));
                let ghost prev = conns_view(e.conns@);
                e.conns.push(conn);
                assert(conns_view(e.conns@) =~= prev.push((socket@, id)));
                e
            },
            None => {
                let mut conns: Vec<Conn> = Vec::new();
                conns.push(conn);
                assert(conns_view(conns@) =~= Seq::<ConnView>::empty().push((socket@, id)));
                ConnEntry { key, conns }
            },
        };
        let ghost mid = self@;
        assert(!has_key(mid, entry@.0)) by {
            if has_key(mid, entry@.0) {
                let a = choose|a: int| 0 <= a < mid.len() && (#[trigger] mid[a]).0 == entry@.0;
                if has_key(old_v, key@) {
                    assert(book_map(mid).contains_key(key@));
                }
            }
        }
        proof {
            lemma_book_push(mid, entry@);
        }
        self.entries.push(entry);
        assert(self@ =~= mid.push(entry@));
        assert(book_map(self@) =~= book_map(old_v).insert(
            key@,
            (if book_map(old_v).contains_key(key@) {
                book_map(old_v)[key@]
            } else {
                Seq::<ConnView>::empty()
            }).push((socket@, id)),
        ));
    }

    /// Removes and returns the streams filed under `key`, if the key is
    /// known.
    pub fn take(&mut self, key: &String) -> (r: Option<Vec<Conn>>)
        requires
            keys_distinct(old(self)@),
        ensures
            keys_distinct(final(self)@),
            match r {
                Some(v) => book_map(old(self)@).contains_key(key@) && conns_view(v@) == book_map(
                    old(self)@,
                )[key@] && book_map(final(self)@) == book_map(old(self)@).remove(key@),
                None => !book_map(old(self)@).contains_key(key@) && final(self)@ == old(self)@,
            },
    {
        let ghost old_v = self@;
        match self.find_entry(key) {
            Some(i) => {
                proof {
                    lemma_key_index(old_v, key@, i as int);
                    lemma_book_remove(old_v, i as int);
                }
                let e = self.entries.remove(i);
                assert(self@ =~= old_v.remove(i as int));
                Some(e.conns)
            },
            None => None,
        }
    }

    /// Removes the first stream to `socket` filed under `key` and returns
    /// its subscription; the key stays, though its list may become empty.
    pub fn remove_conn(&mut self, key: &String, socket: &String) -> (r: Option<u32>)
        requires
            keys_distinct(old(self)@),
        ensures
            keys_distinct(final(self)@),
            match r {
                Some(id) => {
                    let m = book_map(old(self)@);
                    let j = index_of_socket(m[key@], socket@, 0);
                    &&& m.contains_key(key@)
                    &&& j >= 0
                    &&& id == m[key@][j].1
                    &&& book_map(final(self)@) == m.insert(key@, m[key@].remove(j))
                },
                None => {
                    &&& !book_map(old(self)@).contains_key(key@) || index_of_socket(
                        book_map(old(self)@)[key@],
                        socket@,
                        0,
                    ) < 0
                    &&& final(self)@ == old(self)@
                },
            },
    {
        let ghost old_v = self@;
        let i = match self.find_entry(key) {
            Some(i) => i,
            None => {
                return None;
            },
        };
        proof {
            lemma_key_index(old_v, key@, i as int);
        }
        let ghost cs = old_v[i as int].1;
        let mut j: usize = 0;
        let n = self.entries[i].conns.len();
        assert(cs == conns_view(self.entries@[i as int].conns@));
        while j < n
            invariant
                j <= n,
                self@ == old_v,
                i < self.entries.len(),
                n == self.entries@[i as int].conns.len(),
                cs == conns_view(self.entries@[i as int].conns@),
                index_of_socket(cs, socket@, 0) == index_of_socket(cs, socket@, j as int),
            ensures
                j <= n,
                self@ == old_v,
                i < self.entries.len(),
                n == self.entries@[i as int].conns.len(),
                cs == conns_view(self.entries@[i as int].conns@),
                index_of_socket(cs, socket@, 0) == index_of_socket(cs, socket@, j as int),
                j < n ==> cs[j as int].0 == socket@,
            decreases n - j,
        {
            if string_eq(&self.entries[i].conns[j].socket, socket) {
                assert(cs[j as int] == self.entries@[i as int].conns@[j as int]@);
                break;
            }
            assert(cs[j as int] == self.entries@[i as int].conns@[j as int]@);
            j = j + 1;
        }
        if j == n {
            return None;
        }
        assert(cs[j as int] == self.entries@[i as int].conns@[j as int]@);
        assert(index_of_socket(cs, socket@, 0) == j);
        proof {
            lemma_book_remove(old_v, i as int);
        }
        let mut e = self.entries.remove(i);
        assert(self@ =~= old_v.remove(i as int));
        let ghost mid = self@;
        let c = e.conns.remove(j);
        assert(conns_view(e.conns@) =~= cs.remove(j as int));
        assert(!has_key(mid, e@.0)) by {
            if has_key(mid, e@.0) {
                assert(book_map(mid).contains_key(key@));
            }
        }
        proof {
            lemma_book_push(mid, e@);
        }
        self.entries.push(e);
        assert(self@ =~= mid.push(e@));
        Some(c.id)
    }

    /// Removes every stream and returns them all, entry after entry.
    pub fn take_all(&mut self) -> (r: Vec<Conn>)
        requires
            keys_distinct(old(self)@),
        ensures
            conns_view(r@) == all_conns(old(self)@),
            final(self)@ == Seq::<EntryView>::empty(),
    {
        let ghost old_v = self@;
        let mut r: Vec<Conn> = Vec::new();
        let mut entries = Vec::new();
        std::mem::swap(&mut entries, &mut self.entries);
        assert(entries_view(entries@) == old_v);
        let mut i: usize = 0;
        assert(old_v.take(0) =~= Seq::<EntryView>::empty());
        while i < entries.len()
            invariant
                i <= entries.len(),
                entries_view(entries@) == old_v,
                conns_view(r@) == all_conns(old_v.take(i as int)),
                self@ == Seq::<EntryView>::empty(),
            decreases entries.len() - i,
        {
            assert(old_v.take(i + 1).drop_last() =~= old_v.take(i as int));
            assert(old_v.take(i + 1).last() == entries@[i as int]@);
            let ghost before = conns_view(r@);
            let mut k: usize = 0;
            let cs = &entries[i].conns;
            while k < cs.len()
                invariant
                    k <= cs.len(),
                    conns_view(r@) == before + conns_view(cs@).take(k as int),
                decreases cs.len() - k,
            {
                let c = Conn { socket: cs[k].socket.clone(), id: cs[k].id };
                assert(c@ == cs@[k as int]@);
                let ghost r0 = r@;
                r.push(c);
                assert(conns_view(r@) =~= conns_view(r0).push(c@));
                assert(conns_view(cs@).take(k + 1) =~= conns_view(cs@).take(k as int).push(cs@[k as int]@));
                assert(conns_view(r@) =~= before + conns_view(cs@).take(k + 1));
                k = k + 1;
            }
            assert(conns_view(cs@).take(cs.len() as int) =~= conns_view(cs@));
            i = i + 1;
        }
        assert(old_v.take(i as int) =~= old_v);
        r
    }

    /// The streams filed under `key`, if the key is known.
    pub fn get(&self, key: &String) -> (r: Option<&Vec<Conn>>)
        requires
            keys_distinct(self@),
        ensures
            match r {
                Some(v) => book_map(self@).contains_key(key@) && conns_view(v@) == book_map(
                    self@,
                )[key@],
                None => !book_map(self@).contains_key(key@),
            },
    {
        match self.find_entry(key) {
            Some(i) => {
                proof {
                    lemma_key_index(self@, key@, i as int);
                }
                Some(&self.entries[i].conns)
            },
            None => None,
        }
    }
}

} // verus!
