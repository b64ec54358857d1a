use vstd::prelude::*;
use vstd::multiset::Multiset;
use vstd::relations::sorted_by;

use crate::error::Error;
use crate::filter::{Filter, FilterView};
use crate::relay::subscription::{Subscription, SubscriptionView};
use crate::relay::{
    clone_message, deliverable, is_insecure_url, Relay, RelayStatus, RelayView,
};
use ewebsock::WsMessage;
use crate::Result;

verus! {

/// The positions below `n` of the filters of `new` that equal `f`, in
/// increasing order.
pub open spec fn matches_below(new: Seq<FilterView>, f: FilterView, n: int) -> Seq<usize>
    decreases n,
{
    if n <= 0 {
        Seq::empty()
    } else {
        let r = matches_below(new, f, n - 1);
        if new[n - 1] == f {
            r.push((n - 1) as usize)
        } else {
            r
        }
    }
}

/// For each filter of `fs` in turn, the positions in `new` of the filters
/// equal to it.
pub open spec fn matches_of_filters(new: Seq<FilterView>, fs: Seq<FilterView>) -> Seq<usize>
    decreases fs.len(),
{
    if fs.len() == 0 {
        Seq::empty()
    } else {
        matches_of_filters(new, fs.drop_last()) + matches_below(new, fs.last(), new.len() as int)
    }
}

/// For each filter of each subscription in turn, the positions in `new` of
/// the filters equal to it.
pub open spec fn matches_of_subs(new: Seq<FilterView>, subs: Seq<SubscriptionView>) -> Seq<usize>
    decreases subs.len(),
{
    if subs.len() == 0 {
        Seq::empty()
    } else {
        matches_of_subs(new, subs.drop_last()) + matches_of_filters(new, subs.last().filters)
    }
}

/// The order of positions from small to large.
pub open spec fn position_le() -> spec_fn(usize, usize) -> bool {
    |a: usize, b: usize| a <= b
}

/// Removing, from the last position of `idx` to the first, the element at
/// each position stays inside the sequence.
pub open spec fn removals_fit(len: int, idx: Seq<usize>) -> bool
    decreases idx.len(),
{
    idx.len() == 0 || (idx.last() < len && removals_fit(len - 1, idx.drop_last()))
}

/// `s` with the element at each position of `idx` removed, from the last
/// position of `idx` to the first.
pub open spec fn remove_from_last<A>(s: Seq<A>, idx: Seq<usize>) -> Seq<A>
    decreases idx.len(),
{
    if idx.len() == 0 {
        s
    } else {
        remove_from_last(s.remove(idx.last() as int), idx.drop_last())
    }
}

/// The positions that adding a subscription with filters `new` to the
/// active `subs` removes, in increasing order.
pub open spec fn dedup_positions(new: Seq<FilterView>, subs: Seq<SubscriptionView>) -> Seq<usize> {
    matches_of_subs(new, subs).sort_by(position_le())
}

/// Calls `slice::sort_unstable` on the positions: afterwards they are in
/// non-decreasing order and are the same positions, as many times each.
#[verifier::external_body]
fn sort_positions(v: &mut Vec<usize>)
    ensures
        final(v)@.to_multiset() == old(v)@.to_multiset(),
        sorted_by(final(v)@, position_le()),
{
    v.sort_unstable();
}

/// Appends the positions in `new` of the filters equal to `f`.
fn collect_matches_of_filter(new: &Vec<Filter>, f: &Filter, out: &mut Vec<usize>)
    ensures
        final(out)@ == old(out)@ + matches_below(
            new@.map_values(|g: Filter| g@),
            f@,
            new@.len() as int,
        ),
{
    let ghost nv = new@.map_values(|g: Filter| g@);
    let mut i: usize = 0;
    while i < new.len()
        invariant
            0 <= i <= new.len(),
            nv == new@.map_values(|g: Filter| g@),
            out@ == old(out)@ + matches_below(nv, f@, i as int),
        decreases new.len() - i,
    {
        assert(nv[i as int] == new@[i as int]@);
        if new[i] == *f {
            out.push(i);
        }
        i = i + 1;
    }
}

/// Appends, for each filter of `fs` in turn, the positions in `new` of the
/// filters equal to it.
fn collect_matches_of_filters(new: &Vec<Filter>, fs: &Vec<Filter>, out: &mut Vec<usize>)
    ensures
        final(out)@ == old(out)@ + matches_of_filters(
            new@.map_values(|g: Filter| g@),
            fs@.map_values(|g: Filter| g@),
        ),
{
    let ghost nv = new@.map_values(|g: Filter| g@);
    let ghost fv = fs@.map_values(|g: Filter| g@);
    let mut b: usize = 0;
    while b < fs.len()
        invariant
            0 <= b <= fs.len(),
            nv == new@.map_values(|g: Filter| g@),
            fv == fs@.map_values(|g: Filter| g@),
            out@ == old(out)@ + matches_of_filters(nv, fv.take(b as int)),
        decreases fs.len() - b,
    {
        collect_matches_of_filter(new, &fs[b], out);
        proof {
            assert(fv.take(b + 1).drop_last() =~= fv.take(b as int));
            assert(fv.take(b + 1).last() == fs@[b as int]@);
            assert(out@ =~= old(out)@ + matches_of_filters(nv, fv.take(b + 1)));
        }
        b = b + 1;
    }
    assert(fv.take(fs.len() as int) =~= fv);
}

/// Appends, for each filter of each subscription in turn, the positions in
/// `new` of the filters equal to it.
fn collect_matches_of_subs(new: &Vec<Filter>, subs: &Vec<Subscription>, out: &mut Vec<usize>)
    ensures
        final(out)@ == old(out)@ + matches_of_subs(
            new@.map_values(|g: Filter| g@),
            subs@.map_values(|s: Subscription| s@),
        ),
{
    let ghost nv = new@.map_values(|g: Filter| g@);
    let ghost sv = subs@.map_values(|s: Subscription| s@);
    let mut a: usize = 0;
    while a < subs.len()
        invariant
            0 <= a <= subs.len(),
            nv == new@.map_values(|g: Filter| g@),
            sv == subs@.map_values(|s: Subscription| s@),
            out@ == old(out)@ + matches_of_subs(nv, sv.take(a as int)),
        decreases subs.len() - a,
    {
        collect_matches_of_filters(new, &subs[a].filters, out);
        proof {
            assert(sv.take(a + 1).drop_last() =~= sv.take(a as int));
            assert(sv.take(a + 1).last() == subs@[a as int]@);
            assert(out@ =~= old(out)@ + matches_of_subs(nv, sv.take(a + 1)));
        }
        a = a + 1;
    }
    assert(sv.take(subs.len() as int) =~= sv);
}

/// Removes from `fs` the filters at the positions of `idx`, from the last
/// position of `idx` to the first.
fn remove_positions(fs: &mut Vec<Filter>, idx: &Vec<usize>)
    requires
        removals_fit(old(fs)@.len() as int, idx@),
    ensures
        final(fs)@.map_values(|g: Filter| g@) == remove_from_last(
            old(fs)@.map_values(|g: Filter| g@),
            idx@,
        ),
{
    let ghost target = remove_from_last(old(fs)@.map_values(|g: Filter| g@), idx@);
    let mut k: usize = idx.len();
    assert(idx@.take(k as int) =~= idx@);
    while k > 0
        invariant
            0 <= k <= idx@.len(),
            removals_fit(fs@.len() as int, idx@.take(k as int)),
            remove_from_last(fs@.map_values(|g: Filter| g@), idx@.take(k as int)) == target,
        decreases k,
    {
        k = k - 1;
        let j = idx[k];
        let ghost before = fs@;
        proof {
            assert(idx@.take(k + 1).last() == j);
            assert(idx@.take(k + 1).drop_last() =~= idx@.take(k as int));
        }
        fs.remove(j);
        proof {
            assert(fs@.map_values(|g: Filter| g@) =~= before.map_values(|g: Filter| g@).remove(
                j as int,
            ));
        }
    }
    assert(idx@.take(0) =~= Seq::<usize>::empty());
}

/// Sorting the positions gives the one non-decreasing arrangement of them.
proof fn lemma_sorted_positions(v: Seq<usize>, raw: Seq<usize>)
    requires
        v.to_multiset() == raw.to_multiset(),
        sorted_by(v, position_le()),
    ensures
        v == raw.sort_by(position_le()),
{
    let leq = position_le();
    assert(vstd::relations::total_ordering(leq));
    raw.lemma_sort_by_ensures(leq);
    vstd::seq_lib::lemma_sorted_unique(v, raw.sort_by(leq), leq);
}

/// Whether removing, from the last position of `idx` to the first, stays
/// inside a list of `len` elements.
fn removals_stay_inside(len: usize, idx: &Vec<usize>) -> (fit: bool)
    ensures
        fit == removals_fit(len as int, idx@),
{
    let mut k: usize = idx.len();
    let mut cur: usize = len;
    assert(idx@.take(k as int) =~= idx@);
    while k > 0
        invariant
            0 <= k <= idx@.len(),
            cur <= len,
            removals_fit(len as int, idx@) == removals_fit(cur as int, idx@.take(k as int)),
        decreases k,
    {
        proof {
            assert(idx@.take(k as int).last() == idx@[k - 1]);
            assert(idx@.take(k as int).drop_last() =~= idx@.take(k - 1));
        }
        if idx[k - 1] >= cur {
            return false;
        }
        k = k - 1;
        cur = cur - 1;
    }
    assert(idx@.take(0) =~= Seq::<usize>::empty());
    true
}

/// No two relays have the same url.
pub open spec fn urls_distinct(relays: Seq<RelayView>) -> bool {
    forall|i: int, j: int|
        0 <= i < relays.len() && 0 <= j < relays.len() && i != j ==> #[trigger] relays[i].url
            != #[trigger] relays[j].url
}

/// Some relay has the url `url`.
pub open spec fn has_url(relays: Seq<RelayView>, url: Seq<char>) -> bool {
    exists|i: int| 0 <= i < relays.len() && #[trigger] relays[i].url == url
}

/// The positions that adding `sub` to the active `subs` removes, in
/// increasing order.
fn noted_positions(sub: &Subscription, subs: &Vec<Subscription>) -> (idx: Vec<usize>)
    ensures
        idx@ == dedup_positions(sub@.filters, subs@.map_values(|s: Subscription| s@)),
{
    let mut indices: Vec<usize> = Vec::new();
    collect_matches_of_subs(&sub.filters, subs, &mut indices);
    let ghost raw = indices@;
    assert(raw =~= matches_of_subs(sub@.filters, subs@.map_values(|s: Subscription| s@)));
    sort_positions(&mut indices);
    proof {
        lemma_sorted_positions(indices@, raw);
    }
    indices
}

/// A pool of relays and of the subscriptions sent to them.
pub struct RelayPool {
    relays: Vec<Relay>,
    subs: Vec<Subscription>,
}

/// What can be said of a pool: its relays and its active subscriptions.
pub struct RelayPoolView {
    pub relays: Seq<RelayView>,
    pub subs: Seq<SubscriptionView>,
}

impl View for RelayPool {
    type V = RelayPoolView;

    closed spec fn view(&self) -> RelayPoolView {
        RelayPoolView {
            relays: self.relays@.map_values(|r: Relay| r@),
            subs: self.subs@.map_values(|s: Subscription| s@),
        }
    }
}

impl RelayPool {
    /// A pool with no relay and no subscription.
    pub fn new() -> (p: Self)
        ensures
            p@.relays.len() == 0,
            p@.subs.len() == 0,
            urls_distinct(p@.relays),
    {
        RelayPool { relays: Vec::new(), subs: Vec::new() }
    }

    /// The active subscriptions.
    pub fn subscriptions(&self) -> (subs: &Vec<Subscription>)
        ensures
            subs@.map_values(|s: Subscription| s@) == self@.subs,
    {
        &self.subs
    }

    /// How many relays the pool has.
    pub fn relay_count(&self) -> (n: usize)
        ensures
            n == self@.relays.len(),
    {
        self.relays.len()
    }

    /// The relay at position `i`.
    pub fn relay(&self, i: usize) -> (r: &Relay)
        requires
            i < self@.relays.len(),
        ensures
            r@ == self@.relays[i as int],
    {
        &self.relays[i]
    }

    /// Sends `msg` to the relays in turn, stopping with `NotConnected` at
    /// the first that is not connected; succeeds exactly when every relay
    /// is connected. What can be said of the pool is unchanged.
    pub fn send_to_relays(&mut self, msg: WsMessage) -> (res: Result<()>)
        ensures
            res is Ok <==> forall|i: int|
                0 <= i < old(self)@.relays.len() ==> #[trigger] old(self)@.relays[i].status
                    == RelayStatus::Connected,
            res matches Err(e) ==> e is NotConnected,
            final(self)@.relays == old(self)@.relays,
            final(self)@.subs == old(self)@.subs,
    {
        let mut i: usize = 0;
        while i < self.relays.len()
            invariant
                0 <= i <= self.relays.len(),
                self@.relays == old(self)@.relays,
                self@.subs == old(self)@.subs,
                forall|j: int| 0 <= j < i ==> #[trigger] old(self)@.relays[j].status
                    == RelayStatus::Connected,
            decreases self.relays.len() - i,
        {
            assert(self@.relays[i as int] == self.relays@[i as int]@);
            let sent = self.relays[i].send(clone_message(&msg));
            if sent.is_err() {
                return sent;
            }
            i = i + 1;
        }
        Ok(())
    }

    /// Polls the relays in turn and gives the text of the first text
    /// message that one of them received; a relay with no receiving half,
    /// or that received nothing or something else, is passed over. Only a
    /// relay with a receiving half can give a text. The pool is unchanged.
    pub fn try_recv(&mut self) -> (res: Result<Option<String>>)
        ensures
            res is Ok,
            res matches Ok(Some(_)) ==> exists|i: int|
                0 <= i < old(self)@.relays.len() && #[trigger] old(self)@.relays[i].has_receiver,
            final(self)@.relays == old(self)@.relays,
            final(self)@.subs == old(self)@.subs,
    {
        let mut i: usize = 0;
        while i < self.relays.len()
            invariant
                0 <= i <= self.relays.len(),
                self@.relays == old(self)@.relays,
                self@.subs == old(self)@.subs,
            decreases self.relays.len() - i,
        {
            assert(self@.relays[i as int] == self.relays@[i as int]@);
            let received = self.relays[i].try_recv();
            match deliverable(received) {
                Some(text) => {
                    assert(old(self)@.relays[i as int].has_receiver);
                    return Ok(Some(text));
                },
                None => {},
            }
            i = i + 1;
        }
        Ok(None)
    }

    /// Adds a relay to the pool: refused with `AlreadyConnected`, the pool
    /// unchanged, when the pool has a relay with its url; else the relay
    /// joins the pool after the others.
    pub fn insert_relay(&mut self, relay: Relay) -> (res: Result<()>)
        ensures
            has_url(old(self)@.relays, relay@.url) <==> res is Err,
            res matches Err(e) ==> e is AlreadyConnected && final(self)@ == old(self)@,
            res is Ok ==> final(self)@.relays == old(self)@.relays.push(relay@),
            final(self)@.subs == old(self)@.subs,
            urls_distinct(old(self)@.relays) ==> urls_distinct(final(self)@.relays),
    {
        if self.has_relay(&relay.url) {
            return Err(Error::AlreadyConnected);
        }
        let ghost rv = relay@;
        self.relays.push(relay);
        assert(self@.relays =~= old(self)@.relays.push(rv));
        Ok(())
    }

    /// Whether `add_subscription` can take `sub`: the positions it would
    /// remove stay inside the subscription's list of filters.
    pub fn can_add_subscription(&self, sub: &Subscription) -> (ok: bool)
        ensures
            ok == removals_fit(
                sub@.filters.len() as int,
                dedup_positions(sub@.filters, self@.subs),
            ),
    {
        let indices = noted_positions(sub, &self.subs);
        removals_stay_inside(sub.filters.len(), &indices)
    }

    /// Adds a subscription. First every filter of it that equals a filter of
    /// an active subscription has its position noted, once per such active
    /// filter (so a position may be noted several times); then, from the
    /// largest noted position to the smallest, the filter at that position
    /// is removed; then the subscription joins the active ones. The noted
    /// positions must stay inside the shrinking list of filters.
    pub fn add_subscription(&mut self, sub: Subscription)
        requires
            removals_fit(
                sub@.filters.len() as int,
                dedup_positions(sub@.filters, old(self)@.subs),
            ),
        ensures
            final(self)@.relays == old(self)@.relays,
            final(self)@.subs == old(self)@.subs.push(
                SubscriptionView {
                    id: sub@.id,
                    filters: remove_from_last(
                        sub@.filters,
                        dedup_positions(sub@.filters, old(self)@.subs),
                    ),
                },
            ),
    {
        let mut sub = sub;
        let indices = noted_positions(&sub, &self.subs);
        remove_positions(&mut sub.filters, &indices);
        let ghost pushed = sub@;
        self.subs.push(sub);
        assert(self@.subs =~= old(self)@.subs.push(pushed));
    }

    /// Whether some relay of the pool has this url.
    fn has_relay(&self, url: &String) -> (found: bool)
        ensures
            found == has_url(self@.relays, url@),
    {
        let mut i: usize = 0;
        while i < self.relays.len()
            invariant
                0 <= i <= self.relays.len(),
                forall|j: int| 0 <= j < i ==> #[trigger] self@.relays[j].url != url@,
            decreases self.relays.len() - i,
        {
            assert(self@.relays[i as int] == self.relays@[i as int]@);
            if *self.relays[i].url() == *url {
                return true;
            }
            i = i + 1;
        }
        false
    }

    /// A new relay for `url`, not yet connected, for the pool to take once it
    /// is connected (see `insert_relay`): refused with `AlreadyConnected`
    /// when the pool has a relay with that url, and with
    /// `InsecureConnection` for a `ws://` url.
    pub fn new_relay(&self, url: String) -> (res: Result<Relay>)
        ensures
            has_url(self@.relays, url@) ==> res matches Err(Error::AlreadyConnected),
            !has_url(self@.relays, url@) ==> {
                &&& is_insecure_url(url@) <==> res is Err
                &&& res matches Err(e) ==> e is InsecureConnection
                &&& res matches Ok(r) ==> r@.url == url@ && r@.status == RelayStatus::Disconnected
                    && r@.stats.is_fresh() && !r@.has_writer && !r@.has_receiver
            },
    {
        if self.has_relay(&url) {
            return Err(Error::AlreadyConnected);
        }
        Relay::new(url)
    }

    /// Keeping the connections alive needs no work: the pool is unchanged.
    pub fn keepalive(&mut self)
        ensures
            final(self)@ == old(self)@,
    {
    }
}

/// A relay that joined the pool makes its url known to the pool, so that a
/// new relay for that url, or a second relay with it, is refused.
pub proof fn lemma_joined_url_is_known(relays: Seq<RelayView>, r: RelayView)
    ensures
        has_url(relays.push(r), r.url),
{
    assert(relays.push(r)[relays.len() as int] == r);
}

/// The filters of the active subscriptions, subscription by subscription.
pub open spec fn active_filters(subs: Seq<SubscriptionView>) -> Seq<FilterView>
    decreases subs.len(),
{
    if subs.len() == 0 {
        Seq::empty()
    } else {
        active_filters(subs.drop_last()) + subs.last().filters
    }
}

/// No filter of `new` occurs more than once among the active filters.
pub open spec fn matched_at_most_once(new: Seq<FilterView>, subs: Seq<SubscriptionView>) -> bool {
    forall|i: int| 0 <= i < new.len() ==> #[trigger] active_filters(subs).to_multiset().count(new[i]) <= 1
}

/// The elements of `s` whose positions are not listed in `listed`, in order.
pub open spec fn keep_unlisted<A>(s: Seq<A>, listed: Seq<usize>) -> Seq<A>
    decreases s.len(),
{
    if s.len() == 0 {
        s
    } else {
        let r = keep_unlisted(s.drop_last(), listed);
        if listed.contains((s.len() - 1) as usize) {
            r
        } else {
            r.push(s.last())
        }
    }
}

proof fn lemma_matches_below_count(new: Seq<FilterView>, f: FilterView, n: int, j: usize)
    requires
        0 <= n <= new.len(),
        new.len() <= usize::MAX,
    ensures
        matches_below(new, f, n).to_multiset().count(j) == (if j < n && new[j as int] == f {
            1nat
        } else {
            0nat
        }),
    decreases n,
{
    broadcast use vstd::multiset::group_multiset_axioms;
    broadcast use vstd::seq_lib::group_to_multiset_ensures;

    if n <= 0 {
        assert(matches_below(new, f, n) =~= Seq::<usize>::empty());
        assert(matches_below(new, f, n).to_multiset() =~= Multiset::empty());
    } else {
        lemma_matches_below_count(new, f, n - 1, j);
    }
}

proof fn lemma_matches_of_filters_count(new: Seq<FilterView>, fs: Seq<FilterView>, j: usize)
    requires
        new.len() <= usize::MAX,
    ensures
        matches_of_filters(new, fs).to_multiset().count(j) == (if j < new.len() {
            fs.to_multiset().count(new[j as int])
        } else {
            0nat
        }),
    decreases fs.len(),
{
    broadcast use vstd::multiset::group_multiset_axioms;
    broadcast use vstd::seq_lib::group_to_multiset_ensures;
    broadcast use vstd::seq_lib::lemma_multiset_commutative;

    if fs.len() == 0 {
        assert(matches_of_filters(new, fs) =~= Seq::<usize>::empty());
        assert(matches_of_filters(new, fs).to_multiset() =~= Multiset::empty());
        assert(fs.to_multiset() =~= Multiset::empty());
    } else {
        lemma_matches_of_filters_count(new, fs.drop_last(), j);
        lemma_matches_below_count(new, fs.last(), new.len() as int, j);
        assert(fs =~= fs.drop_last().push(fs.last()));
    }
}

proof fn lemma_matches_of_subs_count(new: Seq<FilterView>, subs: Seq<SubscriptionView>, j: usize)
    requires
        new.len() <= usize::MAX,
    ensures
        matches_of_subs(new, subs).to_multiset().count(j) == (if j < new.len() {
            active_filters(subs).to_multiset().count(new[j as int])
        } else {
            0nat
        }),
    decreases subs.len(),
{
    broadcast use vstd::multiset::group_multiset_axioms;
    broadcast use vstd::seq_lib::group_to_multiset_ensures;
    broadcast use vstd::seq_lib::lemma_multiset_commutative;

    if subs.len() == 0 {
        assert(matches_of_subs(new, subs) =~= Seq::<usize>::empty());
        assert(active_filters(subs) =~= Seq::<FilterView>::empty());
        assert(matches_of_subs(new, subs).to_multiset() =~= Multiset::empty());
        assert(active_filters(subs).to_multiset() =~= Multiset::empty());
    } else {
        lemma_matches_of_subs_count(new, subs.drop_last(), j);
        lemma_matches_of_filters_count(new, subs.last().filters, j);
    }
}

proof fn lemma_keep_nothing_listed<A>(s: Seq<A>)
    ensures
        keep_unlisted(s, Seq::empty()) == s,
    decreases s.len(),
{
    if s.len() > 0 {
        lemma_keep_nothing_listed(s.drop_last());
        assert(s.drop_last().push(s.last()) =~= s);
    }
}

proof fn lemma_keep_agree<A>(s: Seq<A>, l1: Seq<usize>, l2: Seq<usize>)
    requires
        forall|x: usize| x < s.len() ==> #[trigger] l1.contains(x) == l2.contains(x),
    ensures
        keep_unlisted(s, l1) == keep_unlisted(s, l2),
    decreases s.len(),
{
    if s.len() > 0 {
        lemma_keep_agree(s.drop_last(), l1, l2);
        assert(l1.contains((s.len() - 1) as usize) == l2.contains((s.len() - 1) as usize));
    }
}

proof fn lemma_keep_remove<A>(s: Seq<A>, listed: Seq<usize>, m: usize)
    requires
        m < s.len(),
        s.len() <= usize::MAX,
        forall|x: usize| #[trigger] listed.contains(x) ==> x < m,
    ensures
        keep_unlisted(s.remove(m as int), listed) == keep_unlisted(s, listed.push(m)),
    decreases s.len(),
{
    let n = s.len() - 1;
    if m == n {
        assert(s.remove(m as int) =~= s.drop_last());
        assert(listed.push(m)[listed.len() as int] == m);
        assert(listed.push(m).contains(m));
        assert forall|x: usize| x < s.drop_last().len() implies #[trigger] listed.push(m).contains(x)
            == listed.contains(x) by {
            if listed.contains(x) {
                let k = choose|k: int| 0 <= k < listed.len() && listed[k] == x;
                assert(listed.push(m)[k] == x);
            }
            if listed.push(m).contains(x) {
                let k = choose|k: int| 0 <= k < listed.len() + 1 && listed.push(m)[k] == x;
                if k < listed.len() {
                    assert(listed[k] == x);
                }
            }
        }
        lemma_keep_agree(s.drop_last(), listed.push(m), listed);
    } else {
        let t = s.drop_last();
        lemma_keep_remove(t, listed, m);
        assert(s.remove(m as int) =~= t.remove(m as int).push(s.last()));
        assert(s.remove(m as int).drop_last() =~= t.remove(m as int));
        if listed.contains((n - 1) as usize) {
            assert(((n - 1) as usize) < m);
        }
        assert(!listed.contains((n - 1) as usize));
        if listed.push(m).contains(n as usize) {
            let k = choose|k: int| 0 <= k < listed.len() + 1 && listed.push(m)[k] == n as usize;
            if k < listed.len() {
                assert(listed.contains(listed[k]));
                assert(listed[k] < m);
            }
        }
        assert(!listed.push(m).contains(n as usize));
    }
}

proof fn lemma_remove_increasing<A>(s: Seq<A>, listed: Seq<usize>)
    requires
        s.len() <= usize::MAX,
        forall|a: int, b: int| 0 <= a < b < listed.len() ==> listed[a] < listed[b],
        forall|a: int| 0 <= a < listed.len() ==> listed[a] < s.len(),
    ensures
        removals_fit(s.len() as int, listed),
        remove_from_last(s, listed) == keep_unlisted(s, listed),
    decreases listed.len(),
{
    if listed.len() == 0 {
        lemma_keep_nothing_listed(s);
        assert(listed =~= Seq::<usize>::empty());
    } else {
        let m = listed.last();
        let rest = listed.drop_last();
        assert forall|a: int| 0 <= a < rest.len() implies rest[a] < s.remove(m as int).len() by {
            assert(listed[a] < listed[listed.len() - 1]);
        }
        lemma_remove_increasing(s.remove(m as int), rest);
        assert forall|x: usize| rest.contains(x) implies x < m by {
            let k = choose|k: int| 0 <= k < rest.len() && rest[k] == x;
            assert(listed[k] < listed[listed.len() - 1]);
        }
        lemma_keep_remove(s, rest, m);
        assert(rest.push(m) =~= listed);
    }
}

proof fn lemma_keep_is_filter<A>(s: Seq<A>, listed: Seq<usize>, keep: spec_fn(A) -> bool)
    requires
        s.len() <= usize::MAX,
        forall|j: int| 0 <= j < s.len() ==> (listed.contains(j as usize) <==> !keep(s[j])),
    ensures
        keep_unlisted(s, listed) == s.filter(keep),
    decreases s.len(),
{
    if s.len() == 0 {
        reveal(Seq::filter);
    } else {
        lemma_keep_is_filter(s.drop_last(), listed, keep);
        s.drop_last().lemma_filter_push(s.last(), keep);
        assert(s.drop_last().push(s.last()) =~= s);
        assert(listed.contains((s.len() - 1) as usize) <==> !keep(s[s.len() - 1]));
    }
}

/// Adding a subscription drops exactly its filters that an active
/// subscription already has: when no filter of the new subscription occurs
/// more than once among the active filters, the removals stay inside the
/// list and what remains are the new filters that no active subscription
/// has, in their order.
pub proof fn lemma_add_subscription_dedups(new: Seq<FilterView>, subs: Seq<SubscriptionView>)
    requires
        new.len() <= usize::MAX,
        matched_at_most_once(new, subs),
    ensures
        removals_fit(new.len() as int, dedup_positions(new, subs)),
        remove_from_last(new, dedup_positions(new, subs)) == new.filter(
            |f: FilterView| !active_filters(subs).contains(f),
        ),
{
    broadcast use vstd::multiset::group_multiset_axioms;
    broadcast use vstd::seq_lib::to_multiset_contains;

    let leq = position_le();
    let m = matches_of_subs(new, subs);
    let sorted = dedup_positions(new, subs);
    assert(vstd::relations::total_ordering(leq));
    m.lemma_sort_by_ensures(leq);
    let active = active_filters(subs);
    assert forall|x: usize| #[trigger] sorted.to_multiset().count(x) == (if x < new.len() {
        active.to_multiset().count(new[x as int])
    } else {
        0nat
    }) by {
        lemma_matches_of_subs_count(new, subs, x);
    }
    assert forall|x: usize| sorted.to_multiset().contains(x) implies sorted.to_multiset().count(x)
        == 1 by {
        assert(sorted.to_multiset().count(x) > 0);
        assert(x < new.len());
        assert(active.to_multiset().count(new[x as int]) <= 1);
    }
    sorted.lemma_multiset_has_no_duplicates_conv();
    assert forall|a: int, b: int| 0 <= a < b < sorted.len() implies sorted[a] < sorted[b] by {
        assert(leq(sorted[a], sorted[b]));
    }
    assert forall|a: int| 0 <= a < sorted.len() implies sorted[a] < new.len() by {
        assert(sorted.contains(sorted[a]));
        assert(sorted.to_multiset().count(sorted[a]) > 0);
    }
    lemma_remove_increasing(new, sorted);
    let keep = |f: FilterView| !active.contains(f);
    assert forall|j: int| 0 <= j < new.len() implies (sorted.contains(j as usize) <==> !keep(
        new[j],
    )) by {
        assert(sorted.to_multiset().count(j as usize) == active.to_multiset().count(new[j]));
    }
    lemma_keep_is_filter(new, sorted, keep);
}

} // verus!
