use vstd::prelude::*;
use crate::chunk::Chunk;
use std::cmp::Ordering;
use std::collections::HashSet;
use vstd::std_specs::cmp::PartialOrdSpecImpl;
use crossbeam_channel::{Receiver, Sender};

verus! {

broadcast use vstd::std_specs::hash::group_hash_axioms;

#[verifier::external_type_specification]
#[verifier::external_body]
#[verifier::reject_recursive_types(T)]
pub struct ExSender<T>(Sender<T>);

#[verifier::external_type_specification]
#[verifier::external_body]
#[verifier::reject_recursive_types(T)]
pub struct ExReceiver<T>(Receiver<T>);

/// Capacity of the request and result queues between the game and its workers.
pub const QUEUE_CAPACITY: usize = 256;

/// Most chunk requests kept in flight by a batch request.
pub const MAX_PENDING: usize = 256;

/// `Sender::try_send`: queues `msg` unless the queue is full or its receiver
/// is gone. Whether it succeeds depends on the workers, so nothing is stated
/// of the result.
#[verifier::external_body]
fn try_send<T>(tx: &Sender<T>, msg: T) -> bool {
    tx.try_send(msg).is_ok()
}

/// `Receiver::try_recv`: the next queued message, or `None` when the queue is
/// empty or its senders are gone. What arrives depends on the workers.
#[verifier::external_body]
fn try_recv<T>(rx: &Receiver<T>) -> Option<T> {
    rx.try_recv().ok()
}

/// The 64-bit key of chunk column `(cx, cz)`.
pub open spec fn chunk_key(cx: i32, cz: i32) -> u64 {
    ((cx as u32) as u64 * 0x1_0000_0000 + (cz as u32) as u64) as u64
}

pub(crate) fn chunk_key_of(cx: i32, cz: i32) -> (k: u64)
    ensures
        k == chunk_key(cx, cz),
{
    (cx as u32) as u64 * 0x1_0000_0000 + (cz as u32) as u64
}

/// Distinct chunk columns have distinct keys.
pub proof fn lemma_chunk_key_injective(a: i32, b: i32, c: i32, d: i32)
    ensures
        chunk_key(a, b) == chunk_key(c, d) ==> a == c && b == d,
{
    let x = chunk_key(a, b) as int;
    assert(x == (a as u32) * 0x1_0000_0000 + (b as u32));
    assert(x / 0x1_0000_0000 == a as u32 && x % 0x1_0000_0000 == b as u32);
    let y = chunk_key(c, d) as int;
    assert(y / 0x1_0000_0000 == c as u32 && y % 0x1_0000_0000 == d as u32);
    assert(((a as u32) as i32) == a) by (bit_vector);
    assert(((b as u32) as i32) == b) by (bit_vector);
    assert(((c as u32) as i32) == c) by (bit_vector);
    assert(((d as u32) as i32) == d) by (bit_vector);
}

/// A request to generate chunk column `(cx, cz)`; requests with a lower
/// `priority` value are sent first.
#[derive(Debug, Clone, Copy)]
pub struct ChunkGenRequest {
    pub cx: i32,
    pub cz: i32,
    pub priority: i32,
}

impl PartialEq for ChunkGenRequest {
    /// Requests are equal when their priorities are.
    fn eq(&self, other: &Self) -> (r: bool) {
        self.priority == other.priority
    }
}

impl vstd::std_specs::cmp::PartialEqSpecImpl for ChunkGenRequest {
    open spec fn obeys_eq_spec() -> bool {
        true
    }

    open spec fn eq_spec(&self, other: &Self) -> bool {
        self.priority == other.priority
    }
}

impl Eq for ChunkGenRequest {}

/// Requests order by urgency: the one with the lower priority value is the
/// greater.
pub open spec fn urgency_order(a: ChunkGenRequest, b: ChunkGenRequest) -> Ordering {
    if b.priority < a.priority {
        Ordering::Less
    } else if b.priority > a.priority {
        Ordering::Greater
    } else {
        Ordering::Equal
    }
}

impl PartialOrd for ChunkGenRequest {
    /// Compares the urgency of two requests.
    fn partial_cmp(&self, other: &Self) -> (r: Option<Ordering>) {
        if other.priority < self.priority {
            Some(Ordering::Less)
        } else if other.priority > self.priority {
            Some(Ordering::Greater)
        } else {
            Some(Ordering::Equal)
        }
    }
}

impl PartialOrdSpecImpl for ChunkGenRequest {
    open spec fn obeys_partial_cmp_spec() -> bool {
        true
    }

    open spec fn partial_cmp_spec(&self, other: &Self) -> Option<Ordering> {
        Some(urgency_order(*self, *other))
    }
}

/// A generated chunk column, as a worker hands it back.
#[derive(Debug)]
pub struct ChunkGenResult {
    pub cx: i32,
    pub cz: i32,
    pub chunk: Chunk,
}

/// Inserts `r` behind every request whose priority is not greater than its
/// own: one step of a stable insertion sort by priority.
pub open spec fn insert_by_priority(s: Seq<(i32, i32, i32)>, r: (i32, i32, i32)) -> Seq<(i32, i32, i32)>
    decreases s.len(),
{
    if s.len() == 0 {
        seq![r]
    } else if r.2 < s.last().2 {
        insert_by_priority(s.drop_last(), r).push(s.last())
    } else {
        s.push(r)
    }
}

/// `s` ordered by priority; equal priorities keep their relative order.
pub open spec fn sort_by_priority(s: Seq<(i32, i32, i32)>) -> Seq<(i32, i32, i32)>
    decreases s.len(),
{
    if s.len() == 0 {
        s
    } else {
        insert_by_priority(sort_by_priority(s.drop_last()), s.last())
    }
}

/// Requests ordered by priority: a lower value never comes after a higher one.
pub open spec fn priority_sorted(s: Seq<(i32, i32, i32)>) -> bool {
    forall|i: int, j: int| 0 <= i < j < s.len() ==> (#[trigger] s[i]).2 <= (#[trigger] s[j]).2
}

proof fn lemma_insert_sorted(s: Seq<(i32, i32, i32)>, r: (i32, i32, i32))
    requires
        priority_sorted(s),
    ensures
        priority_sorted(insert_by_priority(s, r)),
        insert_by_priority(s, r).to_multiset() == s.to_multiset().insert(r),
    decreases s.len(),
{
    broadcast use vstd::multiset::group_multiset_axioms;
    broadcast use vstd::seq_lib::group_to_multiset_ensures;
    if s.len() == 0 {
        assert(seq![r] =~= Seq::<(i32, i32, i32)>::empty().push(r));
        assert(s.to_multiset() =~= vstd::multiset::Multiset::empty());
    } else if r.2 < s.last().2 {
        let p = s.drop_last();
        assert(priority_sorted(p)) by {
            assert forall|i: int, j: int| 0 <= i < j < p.len() implies (#[trigger] p[i]).2 <= (#[trigger] p[j]).2 by {
                assert(p[i] == s[i] && p[j] == s[j]);
            }
        }
        lemma_insert_sorted(p, r);
        let q = insert_by_priority(p, r);
        let t = q.push(s.last());
        assert forall|i: int, j: int| 0 <= i < j < t.len() implies (#[trigger] t[i]).2 <= (#[trigger] t[j]).2 by {
            if j == t.len() - 1 {
                assert(t[j] == s.last());
                assert(q.to_multiset().count(q[i]) > 0);
                assert(p.to_multiset().insert(r).count(q[i]) > 0);
                if q[i] != r {
                    assert(p.to_multiset().count(q[i]) > 0);
                    assert(p.contains(q[i]));
                    let k = choose|k: int| 0 <= k < p.len() && p[k] == q[i];
                    assert(s[k] == p[k]);
                    assert(s[k].2 <= s[s.len() - 1].2);
                }
            } else {
                assert(t[i] == q[i] && t[j] == q[j]);
            }
        }
        assert(s =~= p.push(s.last()));
    } else {
        let t = s.push(r);
        assert forall|i: int, j: int| 0 <= i < j < t.len() implies (#[trigger] t[i]).2 <= (#[trigger] t[j]).2 by {
            if j == t.len() - 1 {
                assert(s[i].2 <= s[s.len() - 1].2 || i == s.len() - 1);
            } else {
                assert(t[i] == s[i] && t[j] == s[j]);
            }
        }
    }
}

/// Priority law of a batch: sorting by priority puts every request of lower
/// priority value before every request of higher value, and keeps exactly
/// the requests it was given, each as often.
pub proof fn lemma_sort_by_priority(s: Seq<(i32, i32, i32)>)
    ensures
        priority_sorted(sort_by_priority(s)),
        sort_by_priority(s).to_multiset() == s.to_multiset(),
        sort_by_priority(s).len() == s.len(),
    decreases s.len(),
{
    broadcast use vstd::multiset::group_multiset_axioms;
    broadcast use vstd::seq_lib::group_to_multiset_ensures;
    if s.len() > 0 {
        lemma_sort_by_priority(s.drop_last());
        lemma_insert_sorted(sort_by_priority(s.drop_last()), s.last());
        assert(s =~= s.drop_last().push(s.last()));
    } else {
        assert(sort_by_priority(s) == s);
    }
    sort_by_priority(s).to_multiset_ensures();
    s.to_multiset_ensures();
}

/// The requests of `s` whose column is not pending.
pub open spec fn not_pending(s: Seq<(i32, i32, i32)>, pending: Set<u64>) -> Seq<(i32, i32, i32)> {
    s.filter(|r: (i32, i32, i32)| !pending.contains(chunk_key(r.0, r.1)))
}

/// The order in which a batch of requests is offered to the workers: the
/// requests for columns not already pending, by priority, stable.
pub open spec fn batch_order(requests: Seq<(i32, i32, i32)>, pending: Set<u64>) -> Seq<(i32, i32, i32)> {
    sort_by_priority(not_pending(requests, pending))
}

/// Inserts `r` behind the last request whose priority is not greater than its own.
fn insert_ranked(v: &mut Vec<(i32, i32, i32)>, r: (i32, i32, i32))
    ensures
        final(v)@ == insert_by_priority(old(v)@, r),
{
    let mut k: usize = v.len();
    while k > 0 && v[k - 1].2 > r.2
        invariant
            v@ == old(v)@,
            k <= v.len(),
            forall|j: int| k <= j < v.len() ==> (#[trigger] v@[j]).2 > r.2,
        decreases k,
    {
        k = k - 1;
    }
    proof {
        lemma_insert_at(v@, r, k as int);
    }
    v.insert(k, r);
    assert(final(v)@ =~= old(v)@.take(k as int).push(r) + old(v)@.skip(k as int));
}

proof fn lemma_insert_at(s: Seq<(i32, i32, i32)>, r: (i32, i32, i32), k: int)
    requires
        0 <= k <= s.len(),
        forall|j: int| k <= j < s.len() ==> (#[trigger] s[j]).2 > r.2,
        k > 0 ==> s[k - 1].2 <= r.2,
    ensures
        insert_by_priority(s, r) == s.take(k).push(r) + s.skip(k),
    decreases s.len(),
{
    if s.len() == 0 {
        assert(s.take(k).push(r) + s.skip(k) =~= seq![r]);
    } else if r.2 < s.last().2 {
        lemma_insert_at(s.drop_last(), r, k);
        assert(s.take(k).push(r) + s.skip(k) =~= (s.drop_last().take(k).push(r) + s.drop_last().skip(k)).push(s.last()));
    } else {
        assert(k == s.len());
        assert(s.take(k).push(r) + s.skip(k) =~= s.push(r));
    }
}

/// The keys of the columns in `results`.
pub open spec fn delivered_keys(results: Seq<ChunkGenResult>) -> Set<u64> {
    Set::new(|k: u64| exists|i: int| 0 <= i < results.len() && k == chunk_key(#[trigger] results[i].cx, results[i].cz))
}

proof fn lemma_delivered_push(results: Seq<ChunkGenResult>, r: ChunkGenResult)
    ensures
        delivered_keys(results.push(r)) == delivered_keys(results).insert(chunk_key(r.cx, r.cz)),
{
    let a = delivered_keys(results.push(r));
    let b = delivered_keys(results).insert(chunk_key(r.cx, r.cz));
    assert forall|k: u64| a.contains(k) <==> b.contains(k) by {
        if a.contains(k) {
            let i = choose|i: int| 0 <= i < results.push(r).len() && k == chunk_key(#[trigger] results.push(r)[i].cx, results.push(r)[i].cz);
            if i < results.len() {
                assert(results.push(r)[i] == results[i]);
            }
        }
        if delivered_keys(results).contains(k) {
            let i = choose|i: int| 0 <= i < results.len() && k == chunk_key(#[trigger] results[i].cx, results[i].cz);
            assert(results.push(r)[i] == results[i]);
        }
        if k == chunk_key(r.cx, r.cz) {
            assert(results.push(r)[results.len() as int] == r);
        }
    }
    assert(a =~= b);
}

/// Generation requests and results in flight between the game and the
/// chunk workers, and the columns requested but not yet delivered.
pub struct ChunkLoader {
    request_tx: Sender<ChunkGenRequest>,
    result_rx: Receiver<ChunkGenResult>,
    pending: HashSet<u64>,
    worker_count: usize,
    offered: Ghost<Seq<(ChunkGenRequest, bool)>>,
    polled: Ghost<Seq<bool>>,
}

/// The request `(cx, cz, priority)` as it is sent.
pub open spec fn as_request(r: (i32, i32, i32)) -> ChunkGenRequest {
    ChunkGenRequest { cx: r.0, cz: r.1, priority: r.2 }
}

/// The pending columns after offering `offer`: its column is pending when the
/// queue took the request, and not pending when it refused it.
pub open spec fn settle(pending: Set<u64>, offer: (ChunkGenRequest, bool)) -> Set<u64> {
    let k = chunk_key(offer.0.cx, offer.0.cz);
    if offer.1 {
        pending.insert(k)
    } else {
        pending.remove(k)
    }
}

/// The pending columns after the offers `offers`, in order.
pub open spec fn settle_all(pending: Set<u64>, offers: Seq<(ChunkGenRequest, bool)>) -> Set<u64>
    decreases offers.len(),
{
    if offers.len() == 0 {
        pending
    } else {
        settle(settle_all(pending, offers.drop_last()), offers.last())
    }
}

/// The outcomes of a run of polls that took `taken` results and then, when
/// `emptied`, found the queue empty: `true` for each result, `false` for the
/// empty queue.
pub open spec fn poll_log(taken: nat, emptied: bool) -> Seq<bool> {
    Seq::new(taken, |i: int| true) + if emptied {
        seq![false]
    } else {
        Seq::<bool>::empty()
    }
}

impl ChunkLoader {
    /// The keys of the columns requested and not yet delivered.
    pub closed spec fn pending_keys(&self) -> Set<u64> {
        self.pending@
    }

    /// The number of workers serving the queues.
    pub closed spec fn workers(&self) -> usize {
        self.worker_count
    }

    /// Every request offered to the request queue so far, in order, with
    /// whether the queue took it.
    pub closed spec fn offers(&self) -> Seq<(ChunkGenRequest, bool)> {
        self.offered@
    }

    /// The outcome of every poll of the result queue so far, in order:
    /// `true` when a result came, `false` when the queue was empty.
    pub closed spec fn polls(&self) -> Seq<bool> {
        self.polled@
    }

    /// A loader over the queues that `worker_count` workers serve.
    pub fn from_queues(request_tx: Sender<ChunkGenRequest>, result_rx: Receiver<ChunkGenResult>, worker_count: usize) -> (l: Self)
        ensures
            l.pending_keys() == Set::<u64>::empty(),
            l.workers() == worker_count,
            l.offers() == Seq::<(ChunkGenRequest, bool)>::empty(),
            l.polls() == Seq::<bool>::empty(),
    {
        ChunkLoader {
            request_tx,
            result_rx,
            pending: HashSet::new(),
            worker_count,
            offered: Ghost(Seq::empty()),
            polled: Ghost(Seq::empty()),
        }
    }

    /// Asks for column `(cx, cz)` unless it is pending: the request is
    /// offered to the request queue, and the column is pending afterwards
    /// exactly when the queue took it.
    pub fn request_chunk(&mut self, cx: i32, cz: i32, priority: i32)
        ensures
            final(self).workers() == old(self).workers(),
            final(self).polls() == old(self).polls(),
            old(self).pending_keys().contains(chunk_key(cx, cz)) ==> final(self).pending_keys() == old(self).pending_keys()
                && final(self).offers() == old(self).offers(),
            !old(self).pending_keys().contains(chunk_key(cx, cz)) ==> {
                &&& final(self).offers().len() == old(self).offers().len() + 1
                &&& final(self).offers().drop_last() == old(self).offers()
                &&& final(self).offers().last().0 == (ChunkGenRequest { cx, cz, priority })
                &&& final(self).pending_keys() == settle(old(self).pending_keys(), final(self).offers().last())
            },
    {
        let key = chunk_key_of(cx, cz);
        if self.pending.contains(&key) {
            return;
        }
        self.pending.insert(key);
        let req = ChunkGenRequest { cx, cz, priority };
        let sent = try_send(&self.request_tx, req);
        if !sent {
            self.pending.remove(&key);
        }
        self.offered = Ghost(self.offered@.push((req, sent)));
        assert(self.offered@.drop_last() =~= old(self).offered@);
        assert(self.pending@ =~= settle(old(self).pending@, (req, sent)));
    }

    /// Offers the requests of the batch whose column is not pending to the
    /// request queue, in `batch_order`, while fewer than 256 columns are
    /// pending. Each offered column is pending afterwards exactly when the
    /// queue took its request (the last time, if it was offered twice).
    pub fn request_chunks(&mut self, requests: &[(i32, i32, i32)])
        ensures
            ({
                let order = batch_order(requests@, old(self).pending_keys());
                let n0 = old(self).offers().len();
                let sent = final(self).offers().subrange(n0 as int, final(self).offers().len() as int);
                &&& final(self).workers() == old(self).workers()
                &&& final(self).polls() == old(self).polls()
                &&& n0 <= final(self).offers().len()
                &&& final(self).offers().subrange(0, n0 as int) == old(self).offers()
                &&& sent.len() <= order.len()
                &&& forall|j: int| 0 <= j < sent.len() ==> (#[trigger] sent[j]).0 == as_request(order[j])
                &&& final(self).pending_keys() == settle_all(old(self).pending_keys(), sent)
                &&& sent.len() < order.len() ==> final(self).pending_keys().len() >= MAX_PENDING
            }),
    {
        let sorted = self.batch(requests);
        let ghost order = sorted@;
        let ghost n0 = self.offered@.len();
        let n = sorted.len();
        let mut i: usize = 0;
        assert(self.offered@.subrange(n0 as int, n0 as int) =~= Seq::<(ChunkGenRequest, bool)>::empty());
        assert(self.offered@.subrange(0, n0 as int) =~= old(self).offered@);
        while i < n && self.pending.len() < MAX_PENDING
            invariant
                n == sorted@.len(),
                sorted@ == order,
                order == batch_order(requests@, old(self).pending@),
                i <= n,
                n0 == old(self).offered@.len(),
                self.worker_count == old(self).worker_count,
                self.polled@ == old(self).polled@,
                self.offered@.len() == n0 + i,
                self.offered@.subrange(0, n0 as int) == old(self).offered@,
                forall|j: int| 0 <= j < i ==> (#[trigger] self.offered@[n0 + j]).0 == as_request(order[j]),
                self.pending@ == settle_all(old(self).pending@, self.offered@.subrange(n0 as int, n0 + i)),
            decreases n - i,
        {
            let (cx, cz, priority) = sorted[i];
            let key = chunk_key_of(cx, cz);
            let ghost before_pending = self.pending@;
            let ghost before_offered = self.offered@;
            self.pending.insert(key);
            let req = ChunkGenRequest { cx, cz, priority };
            let sent = try_send(&self.request_tx, req);
            if !sent {
                self.pending.remove(&key);
            }
            self.offered = Ghost(self.offered@.push((req, sent)));
            proof {
                assert(req == as_request(order[i as int]));
                let prev = before_offered.subrange(n0 as int, n0 + i);
                let cur = self.offered@.subrange(n0 as int, n0 + i + 1);
                assert(cur =~= prev.push((req, sent)));
                assert(cur.drop_last() =~= prev);
                assert(self.pending@ =~= settle(before_pending, (req, sent)));
                assert(self.offered@.subrange(0, n0 as int) =~= before_offered.subrange(0, n0 as int));
                assert forall|j: int| 0 <= j < i + 1 implies (#[trigger] self.offered@[n0 + j]).0 == as_request(order[j]) by {
                    if j < i {
                        assert(self.offered@[n0 + j] == before_offered[n0 + j]);
                    }
                }
            }
            i = i + 1;
        }
        proof {
            let sent = self.offered@.subrange(n0 as int, self.offered@.len() as int);
            assert(sent =~= self.offered@.subrange(n0 as int, n0 + i));
            assert forall|j: int| 0 <= j < sent.len() implies (#[trigger] sent[j]).0 == as_request(order[j]) by {
                assert(sent[j] == self.offered@[n0 + j]);
            }
        }
    }

    /// The requests of `requests` whose column is not pending, in `batch_order`.
    fn batch(&self, requests: &[(i32, i32, i32)]) -> (out: Vec<(i32, i32, i32)>)
        ensures
            out@ == batch_order(requests@, self.pending@),
            forall|j: int| 0 <= j < out@.len() ==> !self.pending@.contains(chunk_key(#[trigger] out@[j].0, out@[j].1)),
    {
        let mut kept: Vec<(i32, i32, i32)> = Vec::new();
        let n = requests.len();
        let mut i: usize = 0;
        while i < n
            invariant
                n == requests@.len(),
                i <= n,
                kept@ == not_pending(requests@.take(i as int), self.pending@),
            decreases n - i,
        {
            let r = requests[i];
            let key = chunk_key_of(r.0, r.1);
            proof {
                assert(requests@.take(i as int + 1).drop_last() =~= requests@.take(i as int));
                reveal(Seq::filter);
            }
            if !self.pending.contains(&key) {
                kept.push(r);
            }
            i = i + 1;
        }
        assert(requests@.take(n as int) =~= requests@);
        let mut out: Vec<(i32, i32, i32)> = Vec::new();
        let m = kept.len();
        let mut j: usize = 0;
        while j < m
            invariant
                m == kept@.len(),
                j <= m,
                out@ == sort_by_priority(kept@.take(j as int)),
            decreases m - j,
        {
            assert(kept@.take(j as int + 1).drop_last() =~= kept@.take(j as int));
            insert_ranked(&mut out, kept[j]);
            j = j + 1;
        }
        assert(kept@.take(m as int) =~= kept@);
        proof {
            lemma_sorted_members(kept@);
            lemma_not_pending_members(requests@, self.pending@);
        }
        assert forall|x: int| 0 <= x < out@.len() implies !self.pending@.contains(chunk_key(#[trigger] out@[x].0, out@[x].1)) by {
            let y = choose|y: int| 0 <= y < kept@.len() && kept@[y] == out@[x];
            assert(!self.pending@.contains(chunk_key(kept@[y].0, kept@[y].1)));
        }
        out
    }

    /// Polls the result queue until it has taken `max_results` delivered
    /// columns or finds the queue empty; each column taken is no longer
    /// pending.
    pub fn poll_results(&mut self, max_results: usize) -> (results: Vec<ChunkGenResult>)
        ensures
            final(self).workers() == old(self).workers(),
            final(self).offers() == old(self).offers(),
            results@.len() <= max_results,
            final(self).polls() == old(self).polls() + poll_log(results@.len(), results@.len() < max_results),
            final(self).pending_keys() == old(self).pending_keys().difference(delivered_keys(results@)),
    {
        let mut results: Vec<ChunkGenResult> = Vec::new();
        let mut i: usize = 0;
        let mut open = true;
        assert(old(self).polled@ + poll_log(0, false) =~= old(self).polled@);
        while i < max_results && open
            invariant
                i <= max_results,
                results@.len() == i,
                !open ==> i < max_results,
                self.worker_count == old(self).worker_count,
                self.offered@ == old(self).offered@,
                self.polled@ == old(self).polled@ + poll_log(i as nat, !open),
                self.pending@ == old(self).pending@.difference(delivered_keys(results@)),
            decreases (max_results - i) * 2 + if open { 1int } else { 0int },
        {
            match try_recv(&self.result_rx) {
                Some(result) => {
                    let key = chunk_key_of(result.cx, result.cz);
                    self.pending.remove(&key);
                    let ghost old_results = results@;
                    results.push(result);
                    self.polled = Ghost(self.polled@.push(true));
                    proof {
                        lemma_delivered_push(old_results, results@.last());
                        assert(results@ == old_results.push(results@.last()));
                        assert(self.pending@ =~= old(self).pending@.difference(delivered_keys(results@)));
                        assert(self.polled@ =~= old(self).polled@ + poll_log((i + 1) as nat, false));
                    }
                    i = i + 1;
                },
                None => {
                    self.polled = Ghost(self.polled@.push(false));
                    assert(self.polled@ =~= old(self).polled@ + poll_log(i as nat, true));
                    open = false;
                },
            }
        }
        results
    }

    /// Polls the result queue for at most 64 delivered columns, as
    /// `poll_results` does.
    pub fn poll_all_results(&mut self) -> (results: Vec<ChunkGenResult>)
        ensures
            final(self).workers() == old(self).workers(),
            final(self).offers() == old(self).offers(),
            results@.len() <= 64,
            final(self).polls() == old(self).polls() + poll_log(results@.len(), results@.len() < 64),
            final(self).pending_keys() == old(self).pending_keys().difference(delivered_keys(results@)),
    {
        self.poll_results(64)
    }

    /// Whether column `(cx, cz)` is requested and not yet delivered.
    pub fn is_pending(&self, cx: i32, cz: i32) -> (b: bool)
        ensures
            b == self.pending_keys().contains(chunk_key(cx, cz)),
    {
        let key = chunk_key_of(cx, cz);
        self.pending.contains(&key)
    }

    /// Number of pending columns.
    pub fn pending_count(&self) -> (n: usize)
        ensures
            n == self.pending_keys().len(),
    {
        self.pending.len()
    }

    /// Forgets that column `(cx, cz)` is pending.
    pub fn cancel(&mut self, cx: i32, cz: i32)
        ensures
            final(self).workers() == old(self).workers(),
            final(self).pending_keys() == old(self).pending_keys().remove(chunk_key(cx, cz)),
            final(self).offers() == old(self).offers(),
            final(self).polls() == old(self).polls(),
    {
        let key = chunk_key_of(cx, cz);
        self.pending.remove(&key);
    }

    /// Forgets every pending column.
    pub fn clear_pending(&mut self)
        ensures
            final(self).workers() == old(self).workers(),
            final(self).pending_keys() == Set::<u64>::empty(),
            final(self).offers() == old(self).offers(),
            final(self).polls() == old(self).polls(),
    {
        self.pending.clear();
    }

    /// Number of workers.
    pub fn worker_count(&self) -> (n: usize)
        ensures
            n == self.workers(),
    {
        self.worker_count
    }
}

/// The 128-bit key of subchunk `(cx, cz, sy)`.
pub open spec fn subchunk_key(cx: i32, cz: i32, sy: i32) -> u128 {
    ((cx as u32) as u128 * 0x1_0000_0000_0000_0000 + (cz as u32) as u128 * 0x1_0000_0000 + (sy as u32) as u128) as u128
}

fn subchunk_key_of(cx: i32, cz: i32, sy: i32) -> (k: u128)
    ensures
        k == subchunk_key(cx, cz, sy),
{
    (cx as u32) as u128 * 0x1_0000_0000_0000_0000 + (cz as u32) as u128 * 0x1_0000_0000 + (sy as u32) as u128
}

/// A request to mesh subchunk `(cx, cz, sy)`.
#[derive(Debug, Clone, Copy)]
pub struct MeshRequest {
    pub cx: i32,
    pub cz: i32,
    pub sy: i32,
}

/// The terrain and water meshes of one subchunk, as a worker hands them back.
#[derive(Debug)]
pub struct MeshResult<M> {
    pub cx: i32,
    pub cz: i32,
    pub sy: i32,
    pub terrain: M,
    pub water: M,
}

/// Meshing requests and results in flight between the game and the mesh
/// workers, and the subchunks queued but not yet delivered.
#[verifier::reject_recursive_types(M)]
pub struct MeshLoader<M> {
    request_tx: Sender<MeshRequest>,
    result_rx: Receiver<MeshResult<M>>,
    pending: HashSet<u128>,
    offered: Ghost<Seq<(MeshRequest, bool)>>,
    polled: Ghost<Seq<bool>>,
}

impl<M> MeshLoader<M> {
    /// The keys of the subchunks queued and not yet delivered.
    pub closed spec fn pending_keys(&self) -> Set<u128> {
        self.pending@
    }

    /// Every request offered to the request queue so far, in order, with
    /// whether the queue took it.
    pub closed spec fn offers(&self) -> Seq<(MeshRequest, bool)> {
        self.offered@
    }

    /// The outcome of every poll of the result queue so far, in order:
    /// `true` when a mesh came, `false` when the queue was empty.
    pub closed spec fn polls(&self) -> Seq<bool> {
        self.polled@
    }

    /// A loader over the queues its workers serve.
    pub fn from_queues(request_tx: Sender<MeshRequest>, result_rx: Receiver<MeshResult<M>>) -> (l: Self)
        ensures
            l.pending_keys() == Set::<u128>::empty(),
            l.offers() == Seq::<(MeshRequest, bool)>::empty(),
            l.polls() == Seq::<bool>::empty(),
    {
        MeshLoader { request_tx, result_rx, pending: HashSet::new(), offered: Ghost(Seq::empty()), polled: Ghost(Seq::empty()) }
    }

    /// Offers subchunk `(cx, cz, sy)` to the request queue unless it is
    /// queued already; it is queued afterwards when the queue took the
    /// request. When the queue is full nothing else changes, and the caller
    /// retries later.
    pub fn request_mesh(&mut self, cx: i32, cz: i32, sy: i32)
        ensures
            final(self).polls() == old(self).polls(),
            old(self).pending_keys().contains(subchunk_key(cx, cz, sy)) ==> final(self).pending_keys() == old(self).pending_keys()
                && final(self).offers() == old(self).offers(),
            !old(self).pending_keys().contains(subchunk_key(cx, cz, sy)) ==> {
                &&& final(self).offers().len() == old(self).offers().len() + 1
                &&& final(self).offers().drop_last() == old(self).offers()
                &&& final(self).offers().last().0 == (MeshRequest { cx, cz, sy })
                &&& final(self).pending_keys() == if final(self).offers().last().1 {
                    old(self).pending_keys().insert(subchunk_key(cx, cz, sy))
                } else {
                    old(self).pending_keys()
                }
            },
    {
        let key = subchunk_key_of(cx, cz, sy);
        if self.pending.contains(&key) {
            return;
        }
        let req = MeshRequest { cx, cz, sy };
        let sent = try_send(&self.request_tx, req);
        if sent {
            self.pending.insert(key);
        }
        self.offered = Ghost(self.offered@.push((req, sent)));
        assert(self.offered@.drop_last() =~= old(self).offered@);
    }

    /// Polls the result queue once: the next delivered mesh, if any, whose
    /// subchunk is then no longer queued.
    pub fn poll_result(&mut self) -> (r: Option<MeshResult<M>>)
        ensures
            final(self).offers() == old(self).offers(),
            final(self).polls() == old(self).polls().push(r is Some),
            match r {
                Some(m) => final(self).pending_keys() == old(self).pending_keys().remove(subchunk_key(m.cx, m.cz, m.sy)),
                None => final(self).pending_keys() == old(self).pending_keys(),
            },
    {
        match try_recv(&self.result_rx) {
            Some(result) => {
                let key = subchunk_key_of(result.cx, result.cz, result.sy);
                self.pending.remove(&key);
                self.polled = Ghost(self.polled@.push(true));
                Some(result)
            },
            None => {
                self.polled = Ghost(self.polled@.push(false));
                None
            },
        }
    }

    /// Whether subchunk `(cx, cz, sy)` is queued for meshing.
    pub fn is_pending(&self, cx: i32, cz: i32, sy: i32) -> (b: bool)
        ensures
            b == self.pending_keys().contains(subchunk_key(cx, cz, sy)),
    {
        let key = subchunk_key_of(cx, cz, sy);
        self.pending.contains(&key)
    }
}

proof fn lemma_not_pending_members(s: Seq<(i32, i32, i32)>, pending: Set<u64>)
    ensures
        forall|x: int| 0 <= x < not_pending(s, pending).len()
            ==> !pending.contains(chunk_key(#[trigger] not_pending(s, pending)[x].0, not_pending(s, pending)[x].1)),
{
    let f = |r: (i32, i32, i32)| !pending.contains(chunk_key(r.0, r.1));
    assert forall|x: int| 0 <= x < not_pending(s, pending).len()
        implies !pending.contains(chunk_key(#[trigger] not_pending(s, pending)[x].0, not_pending(s, pending)[x].1)) by {
        s.lemma_filter_pred(f, x);
    }
}

proof fn lemma_insert_members(s: Seq<(i32, i32, i32)>, r: (i32, i32, i32))
    ensures
        forall|x: int| 0 <= x < insert_by_priority(s, r).len() ==> (insert_by_priority(s, r)[x] == r
            || exists|y: int| 0 <= y < s.len() && s[y] == #[trigger] insert_by_priority(s, r)[x]),
        insert_by_priority(s, r).len() == s.len() + 1,
    decreases s.len(),
{
    if s.len() > 0 && r.2 < s.last().2 {
        lemma_insert_members(s.drop_last(), r);
        let t = insert_by_priority(s.drop_last(), r);
        assert forall|x: int| 0 <= x < insert_by_priority(s, r).len() implies (insert_by_priority(s, r)[x] == r
            || exists|y: int| 0 <= y < s.len() && s[y] == #[trigger] insert_by_priority(s, r)[x]) by {
            if x < t.len() {
                if t[x] != r {
                    let y = choose|y: int| 0 <= y < s.drop_last().len() && s.drop_last()[y] == t[x];
                    assert(s[y] == t[x]);
                }
            } else {
                assert(s[s.len() - 1] == insert_by_priority(s, r)[x]);
            }
        }
    } else if s.len() > 0 {
        assert forall|x: int| 0 <= x < insert_by_priority(s, r).len() implies (insert_by_priority(s, r)[x] == r
            || exists|y: int| 0 <= y < s.len() && s[y] == #[trigger] insert_by_priority(s, r)[x]) by {
            if x < s.len() {
                assert(s[x] == insert_by_priority(s, r)[x]);
            }
        }
    }
}

proof fn lemma_sorted_members(s: Seq<(i32, i32, i32)>)
    ensures
        forall|x: int| 0 <= x < sort_by_priority(s).len() ==> exists|y: int| 0 <= y < s.len() && s[y] == #[trigger] sort_by_priority(s)[x],
        sort_by_priority(s).len() == s.len(),
    decreases s.len(),
{
    if s.len() > 0 {
        let p = s.drop_last();
        lemma_sorted_members(p);
        lemma_insert_members(sort_by_priority(p), s.last());
        let t = sort_by_priority(s);
        assert forall|x: int| 0 <= x < t.len() implies exists|y: int| 0 <= y < s.len() && s[y] == #[trigger] t[x] by {
            if t[x] == s.last() {
                assert(s[s.len() - 1] == t[x]);
            } else {
                let y = choose|y: int| 0 <= y < sort_by_priority(p).len() && sort_by_priority(p)[y] == t[x];
                let z = choose|z: int| 0 <= z < p.len() && p[z] == sort_by_priority(p)[y];
                assert(s[z] == t[x]);
            }
        }
    }
}

} // verus!
