//! The per-stage operation queue.
//!
//! Eligible operations (those whose `next_attempt_after` has passed) are
//! yielded in ascending `(num_retries, enqueue sequence)` order: operations
//! that have never failed go first, and among equal retry counts insertion
//! order is kept. Ineligible operations stay in the queue and become
//! eligible as time advances. An out-of-band retry request resets the
//! `next_attempt_after` of every matching operation, making it immediately
//! eligible.

use vstd::prelude::*;

use crate::op::{MessageRetryRequest, Operation, PendingOperationStatus};

verus! {

/// An enqueued operation together with the sequence number it was assigned
/// when it entered the queue.
#[derive(Clone, Copy, Debug, PartialEq, Eq, Structural)]
pub struct QueueEntry {
    pub op: Operation,
    pub seq: u64,
}

/// Strict priority order: lower retry count first, then lower (earlier)
/// enqueue sequence.
pub open spec fn entry_lt(a: QueueEntry, b: QueueEntry) -> bool {
    a.op.num_retries < b.op.num_retries || (a.op.num_retries == b.op.num_retries && a.seq < b.seq)
}

/// The entries are strictly sorted by priority.
pub open spec fn priority_sorted(s: Seq<QueueEntry>) -> bool {
    forall|i: int, j: int| #![trigger s[i], s[j]] 0 <= i < j < s.len() ==> entry_lt(s[i], s[j])
}

/// Every stored sequence number was assigned before `next_seq`.
pub open spec fn seqs_bounded(s: Seq<QueueEntry>, next_seq: u64) -> bool {
    forall|i: int| 0 <= i < s.len() ==> (#[trigger] s[i]).seq < next_seq
}

/// An operation is eligible once its earliest attempt instant has passed.
pub open spec fn eligible(op: Operation, now: u64) -> bool {
    op.next_attempt_after <= now
}

/// The operation as it will be enqueued: pushing may stamp a new status.
pub open spec fn stamped(op: Operation, status: Option<PendingOperationStatus>) -> Operation {
    match status {
        Some(st) => Operation { status: st, ..op },
        None => op,
    }
}

/// Insertion into a priority-sorted sequence, keeping entries with an equal
/// key in front of the new one (the new entry has the largest sequence
/// number, so it goes after all equal retry counts).
pub open spec fn spec_insert(s: Seq<QueueEntry>, e: QueueEntry) -> Seq<QueueEntry>
    decreases s.len(),
{
    if s.len() == 0 {
        seq![e]
    } else if entry_lt(e, s[0]) {
        seq![e] + s
    } else {
        seq![s[0]] + spec_insert(s.drop_first(), e)
    }
}

/// What one `push` does to the queue's entries.
pub open spec fn spec_push(
    s: Seq<QueueEntry>,
    op: Operation,
    status: Option<PendingOperationStatus>,
    seq: u64,
) -> Seq<QueueEntry> {
    spec_insert(s, QueueEntry { op: stamped(op, status), seq })
}

/// What `pop_many` does: the first component is the taken entries (eligible,
/// in priority order, at most `n`), the second the entries left behind, in
/// their original order.
pub open spec fn spec_pop(s: Seq<QueueEntry>, n: nat, now: u64) -> (Seq<QueueEntry>, Seq<
    QueueEntry,
>)
    decreases s.len(),
{
    if s.len() == 0 || n == 0 {
        (Seq::empty(), s)
    } else if eligible(s[0].op, now) {
        let (t, r) = spec_pop(s.drop_first(), (n - 1) as nat, now);
        (seq![s[0]] + t, r)
    } else {
        let (t, r) = spec_pop(s.drop_first(), n, now);
        (t, seq![s[0]] + r)
    }
}

/// What a retry request does: every matching operation becomes immediately
/// eligible; nothing else changes.
pub open spec fn spec_retry(s: Seq<QueueEntry>, req: MessageRetryRequest, now: u64) -> Seq<
    QueueEntry,
> {
    s.map_values(
        |e: QueueEntry|
            if req.spec_matches(e.op) {
                QueueEntry { op: Operation { next_attempt_after: now, ..e.op }, seq: e.seq }
            } else {
                e
            },
    )
}

/// A priority queue of operations for one stage of the processor.
pub struct OpQueue {
    entries: Vec<QueueEntry>,
    next_seq: u64,
}

impl View for OpQueue {
    type V = Seq<QueueEntry>;

    closed spec fn view(&self) -> Seq<QueueEntry> {
        self.entries@
    }
}

impl OpQueue {
    /// The sequence number the next pushed operation will receive.
    pub closed spec fn next_seq(&self) -> u64 {
        self.next_seq
    }

    /// Queue well-formedness: strictly priority-sorted entries whose
    /// sequence numbers were all assigned in the past.
    pub open spec fn wf(&self) -> bool {
        priority_sorted(self@) && seqs_bounded(self@, self.next_seq())
    }

    pub fn new() -> (q: OpQueue)
        ensures
            q.wf(),
            q@ == Seq::<QueueEntry>::empty(),
            q.next_seq() == 0,
    {
        OpQueue { entries: Vec::new(), next_seq: 0 }
    }

    /// Current size, ineligible entries included.
    pub fn len(&self) -> (r: usize)
        ensures
            r == self@.len(),
    {
        self.entries.len()
    }

    /// Whether `n` more pushes fit before the sequence numbers run out; a
    /// real process never exhausts them, but callers check rather than
    /// assume.
    pub fn has_seq_headroom(&self, n: usize) -> (r: bool)
        ensures
            r == (self.next_seq() + n <= u64::MAX),
    {
        n as u64 <= u64::MAX - self.next_seq
    }

    /// The entry at position `i` in priority order; for observation only.
    pub fn entry_at(&self, i: usize) -> (r: &QueueEntry)
        requires
            i < self@.len(),
        ensures
            *r == self@[i as int],
    {
        &self.entries[i]
    }
}

fn entry_before(a: &QueueEntry, b: &QueueEntry) -> (r: bool)
    ensures
        r == entry_lt(*a, *b),
{
    a.op.num_retries < b.op.num_retries || (a.op.num_retries == b.op.num_retries && a.seq < b.seq)
}

/// Inserting at the first position whose entry the new one precedes is the
/// same as the recursive sorted insertion.
proof fn lemma_insert_at(s: Seq<QueueEntry>, e: QueueEntry, i: int)
    requires
        0 <= i <= s.len(),
        forall|k: int| 0 <= k < i ==> entry_lt(#[trigger] s[k], e),
        i < s.len() ==> entry_lt(e, s[i]),
    ensures
        spec_insert(s, e) == s.subrange(0, i) + seq![e] + s.subrange(i, s.len() as int),
    decreases s.len(),
{
    if s.len() == 0 {
        assert(spec_insert(s, e) =~= s.subrange(0, i) + seq![e] + s.subrange(i, s.len() as int));
    } else if i == 0 {
        assert(entry_lt(e, s[0]));
        assert(spec_insert(s, e) =~= s.subrange(0, i) + seq![e] + s.subrange(i, s.len() as int));
    } else {
        assert(entry_lt(s[0], e));
        assert(!entry_lt(e, s[0]));
        lemma_insert_at(s.drop_first(), e, i - 1);
        assert(spec_insert(s, e) =~= s.subrange(0, i) + seq![e] + s.subrange(i, s.len() as int));
    }
}

impl OpQueue {
    /// Enqueue one operation, stamping `status` onto it if one is given.
    ///
    /// The operation receives the next sequence number and takes its place
    /// in priority order, after any already-queued operation with the same
    /// retry count.
    pub fn push(&mut self, op: Operation, status: Option<PendingOperationStatus>)
        requires
            old(self).wf(),
            old(self).next_seq() < u64::MAX,
        ensures
            final(self).wf(),
            final(self)@ == spec_push(old(self)@, op, status, old(self).next_seq()),
            final(self).next_seq() == old(self).next_seq() + 1,
            final(self)@.len() == old(self)@.len() + 1,
    {
        let stamped_op = match status {
            Some(st) => Operation { status: st, ..op },
            None => op,
        };
        let entry = QueueEntry { op: stamped_op, seq: self.next_seq };
        self.next_seq = self.next_seq + 1;

        let ghost s = self.entries@;
        let mut i: usize = 0;
        while i < self.entries.len() && !entry_before(&entry, &self.entries[i])
            invariant
                0 <= i <= s.len(),
                self.entries@ == s,
                forall|k: int| 0 <= k < i ==> !entry_lt(entry, #[trigger] s[k]),
            decreases s.len() - i,
        {
            i = i + 1;
        }
        proof {
            // every skipped entry strictly precedes the new one: equal keys
            // are impossible because stored sequence numbers are smaller
            assert forall|k: int| 0 <= k < i implies entry_lt(#[trigger] s[k], entry) by {
                assert(s[k].seq < entry.seq);
            }
            lemma_insert_at(s, entry, i as int);
        }
        self.entries.insert(i, entry);
        proof {
            assert(self.entries@ =~= s.subrange(0, i as int) + seq![entry] + s.subrange(
                i as int,
                s.len() as int,
            ));
            assert forall|a: int, b: int|
                #![trigger self.entries@[a], self.entries@[b]]
                0 <= a < b < self.entries@.len() implies entry_lt(
                self.entries@[a],
                self.entries@[b],
            ) by {
                let t = self.entries@;
                if b < i {
                    assert(t[a] == s[a] && t[b] == s[b]);
                } else if a > i {
                    assert(t[a] == s[a - 1] && t[b] == s[b - 1]);
                } else if a < i && b == i {
                    assert(t[a] == s[a] && t[b] == entry);
                } else if a == i && b > i {
                    assert(t[a] == entry && t[b] == s[b - 1]);
                } else {
                    assert(a < i && b > i);
                    assert(t[a] == s[a] && t[b] == s[b - 1]);
                    assert(entry_lt(s[a], entry));
                    assert(entry_lt(entry, s[b - 1]) || entry_lt(s[a], s[b - 1]));
                }
            }
            assert(seqs_bounded(self.entries@, self.next_seq));
        }
    }
}

/// How `spec_pop` treats one more entry at the back: it is taken exactly
/// when it is eligible and the budget is not yet exhausted.
proof fn lemma_spec_pop_snoc(s: Seq<QueueEntry>, e: QueueEntry, n: nat, now: u64)
    ensures
        spec_pop(s.push(e), n, now).0 == (if eligible(e.op, now) && spec_pop(s, n, now).0.len() < n {
            spec_pop(s, n, now).0.push(e)
        } else {
            spec_pop(s, n, now).0
        }),
        spec_pop(s.push(e), n, now).1 == (if eligible(e.op, now) && spec_pop(s, n, now).0.len() < n {
            spec_pop(s, n, now).1
        } else {
            spec_pop(s, n, now).1.push(e)
        }),
    decreases s.len(),
{
    let se = s.push(e);
    if s.len() == 0 {
        if n == 0 {
            assert(spec_pop(se, n, now).1 =~= spec_pop(s, n, now).1.push(e));
        } else {
            assert(se[0] == e);
            assert(se.drop_first() =~= Seq::<QueueEntry>::empty());
            assert(spec_pop(se.drop_first(), (n - 1) as nat, now).0 =~= Seq::<QueueEntry>::empty());
            assert(spec_pop(se.drop_first(), (n - 1) as nat, now).1 =~= Seq::<QueueEntry>::empty());
            assert(spec_pop(se.drop_first(), n, now).0 =~= Seq::<QueueEntry>::empty());
            assert(spec_pop(se.drop_first(), n, now).1 =~= Seq::<QueueEntry>::empty());
            if eligible(e.op, now) {
                assert(spec_pop(se, n, now).0 =~= spec_pop(s, n, now).0.push(e));
                assert(spec_pop(se, n, now).1 =~= spec_pop(s, n, now).1);
            } else {
                assert(spec_pop(se, n, now).0 =~= spec_pop(s, n, now).0);
                assert(spec_pop(se, n, now).1 =~= spec_pop(s, n, now).1.push(e));
            }
        }
    } else if n == 0 {
        assert(spec_pop(se, n, now).1 =~= spec_pop(s, n, now).1.push(e));
    } else {
        assert(se[0] == s[0]);
        assert(se.drop_first() =~= s.drop_first().push(e));
        if eligible(s[0].op, now) {
            lemma_spec_pop_snoc(s.drop_first(), e, (n - 1) as nat, now);
            let (t0, r0) = spec_pop(s.drop_first(), (n - 1) as nat, now);
            if eligible(e.op, now) && t0.len() < (n - 1) as nat {
                assert(spec_pop(se, n, now).0 =~= spec_pop(s, n, now).0.push(e));
            } else {
                assert(spec_pop(se, n, now).1 =~= spec_pop(s, n, now).1.push(e));
                assert(spec_pop(se, n, now).0 =~= spec_pop(s, n, now).0);
            }
        } else {
            lemma_spec_pop_snoc(s.drop_first(), e, n, now);
            let (t0, r0) = spec_pop(s.drop_first(), n, now);
            if eligible(e.op, now) && t0.len() < n {
                assert(spec_pop(se, n, now).0 =~= spec_pop(s, n, now).0.push(e));
                assert(spec_pop(se, n, now).1 =~= spec_pop(s, n, now).1);
            } else {
                assert(spec_pop(se, n, now).0 =~= spec_pop(s, n, now).0);
                assert(spec_pop(se, n, now).1 =~= spec_pop(s, n, now).1.push(e));
            }
        }
    }
}

/// The facts callers rely on about `spec_pop`: the taken entries are
/// eligible, both halves keep the priority order, and together they are a
/// partition of the original entries.
pub proof fn lemma_spec_pop_props(s: Seq<QueueEntry>, n: nat, now: u64)
    requires
        priority_sorted(s),
    ensures
        spec_pop(s, n, now).0.len() <= n,
        spec_pop(s, n, now).0.len() + spec_pop(s, n, now).1.len() == s.len(),
        forall|i: int|
            0 <= i < spec_pop(s, n, now).0.len() ==> eligible(
                #[trigger] spec_pop(s, n, now).0[i].op,
                now,
            ),
        priority_sorted(spec_pop(s, n, now).0),
        priority_sorted(spec_pop(s, n, now).1),
        forall|x: QueueEntry| #[trigger] spec_pop(s, n, now).0.contains(x) ==> s.contains(x),
        forall|x: QueueEntry| #[trigger] spec_pop(s, n, now).1.contains(x) ==> s.contains(x),
        forall|i: int|
            0 <= i < s.len() ==> (spec_pop(s, n, now).0.contains(#[trigger] s[i]) <==> !spec_pop(
                s,
                n,
                now,
            ).1.contains(s[i])),
    decreases s.len(),
{
    let (t, r) = spec_pop(s, n, now);
    if s.len() == 0 || n == 0 {
    } else {
        let d = s.drop_first();
        assert forall|i: int, j: int|
            #![trigger d[i], d[j]]
            0 <= i < j < d.len() implies entry_lt(d[i], d[j]) by {
            assert(d[i] == s[i + 1] && d[j] == s[j + 1]);
        }
        assert forall|x: QueueEntry| #[trigger] d.contains(x) implies s.contains(x) && entry_lt(
            s[0],
            x,
        ) by {
            let k = choose|k: int| 0 <= k < d.len() && d[k] == x;
            assert(s[k + 1] == x);
        }
        if eligible(s[0].op, now) {
            lemma_spec_pop_props(d, (n - 1) as nat, now);
            let (t0, r0) = spec_pop(d, (n - 1) as nat, now);
            assert(t == seq![s[0]] + t0);
            assert(t[0] == s[0]);
            assert forall|i: int, j: int|
                #![trigger t[i], t[j]]
                0 <= i < j < t.len() implies entry_lt(t[i], t[j]) by {
                if i > 0 {
                    assert(t[i] == t0[i - 1] && t[j] == t0[j - 1]);
                } else {
                    assert(t[j] == t0[j - 1]);
                    assert(t0.contains(t0[j - 1]));
                }
            }
            assert forall|x: QueueEntry| #[trigger] t.contains(x) implies s.contains(x) by {
                let k = choose|k: int| 0 <= k < t.len() && t[k] == x;
                if k == 0 {
                    assert(s[0] == x);
                } else {
                    assert(t0[k - 1] == x);
                    assert(t0.contains(x));
                }
            }
            assert forall|i: int|
                0 <= i < s.len() implies (t.contains(#[trigger] s[i]) <==> !r.contains(s[i])) by {
                if i == 0 {
                    assert(t[0] == s[0]);
                    assert(t.contains(s[0]));
                    if r.contains(s[0]) {
                        assert(entry_lt(s[0], s[0]));
                    }
                } else {
                    assert(d[i - 1] == s[i]);
                    assert(t0.contains(s[i]) <==> !r0.contains(s[i]));
                    if t.contains(s[i]) {
                        let k = choose|k: int| 0 <= k < t.len() && t[k] == s[i];
                        if k == 0 {
                            assert(entry_lt(s[0], s[i]));
                            assert(entry_lt(s[0], s[0]));
                        }
                        assert(t0.contains(s[i]));
                    }
                    if t0.contains(s[i]) {
                        assert(t[1 + (choose|k: int| 0 <= k < t0.len() && t0[k] == s[i])] == s[i]);
                    }
                }
            }
            assert forall|i: int|
                0 <= i < t.len() implies eligible(#[trigger] t[i].op, now) by {
                if i > 0 {
                    assert(t[i] == t0[i - 1]);
                }
            }
        } else {
            lemma_spec_pop_props(d, n, now);
            let (t0, r0) = spec_pop(d, n, now);
            assert(r == seq![s[0]] + r0);
            assert(r[0] == s[0]);
            assert forall|i: int, j: int|
                #![trigger r[i], r[j]]
                0 <= i < j < r.len() implies entry_lt(r[i], r[j]) by {
                if i > 0 {
                    assert(r[i] == r0[i - 1] && r[j] == r0[j - 1]);
                } else {
                    assert(r[j] == r0[j - 1]);
                    assert(r0.contains(r0[j - 1]));
                }
            }
            assert forall|x: QueueEntry| #[trigger] r.contains(x) implies s.contains(x) by {
                let k = choose|k: int| 0 <= k < r.len() && r[k] == x;
                if k == 0 {
                    assert(s[0] == x);
                } else {
                    assert(r0[k - 1] == x);
                    assert(r0.contains(x));
                }
            }
            assert forall|i: int|
                0 <= i < s.len() implies (t.contains(#[trigger] s[i]) <==> !r.contains(s[i])) by {
                if i == 0 {
                    assert(r[0] == s[0]);
                    assert(r.contains(s[0]));
                    if t.contains(s[0]) {
                        assert(entry_lt(s[0], s[0]));
                    }
                } else {
                    assert(d[i - 1] == s[i]);
                    assert(t0.contains(s[i]) <==> !r0.contains(s[i]));
                    if r.contains(s[i]) {
                        let k = choose|k: int| 0 <= k < r.len() && r[k] == s[i];
                        if k == 0 {
                            assert(entry_lt(s[0], s[i]));
                            assert(entry_lt(s[0], s[0]));
                        }
                        assert(r0.contains(s[i]));
                    }
                    if r0.contains(s[i]) {
                        assert(r[1 + (choose|k: int| 0 <= k < r0.len() && r0[k] == s[i])] == s[i]);
                    }
                }
            }
        }
    }
}

impl OpQueue {
    /// Dequeue up to `n` currently-eligible operations, in priority order.
    ///
    /// Ineligible operations stay behind in their order and become eligible
    /// as time advances. `pop_many(0)` returns nothing and leaves the queue
    /// unchanged, as does a pop from a queue with no eligible operation.
    pub fn pop_many(&mut self, n: usize, now: u64) -> (r: Vec<Operation>)
        requires
            old(self).wf(),
        ensures
            final(self).wf(),
            final(self).next_seq() == old(self).next_seq(),
            final(self)@ == spec_pop(old(self)@, n as nat, now).1,
            r@ == spec_pop(old(self)@, n as nat, now).0.map_values(|e: QueueEntry| e.op),
            r@.len() <= n,
            r@.len() + final(self)@.len() == old(self)@.len(),
            forall|i: int| 0 <= i < r@.len() ==> eligible(#[trigger] r@[i], now),
            n == 0 ==> r@.len() == 0,
            old(self)@.len() == 0 ==> r@.len() == 0,
            forall|i: int|
                0 <= i < old(self)@.len() && !eligible((#[trigger] old(self)@[i]).op, now)
                    ==> final(self)@.contains(old(self)@[i]),
    {
        let ghost s = self.entries@;
        let mut taken: Vec<Operation> = Vec::new();
        let mut rest: Vec<QueueEntry> = Vec::new();
        let ghost mut taken_entries: Seq<QueueEntry> = Seq::empty();
        let mut i: usize = 0;
        while i < self.entries.len()
            invariant
                0 <= i <= s.len(),
                self.entries@ == s,
                taken_entries == spec_pop(s.take(i as int), n as nat, now).0,
                rest@ == spec_pop(s.take(i as int), n as nat, now).1,
                taken@ == taken_entries.map_values(|e: QueueEntry| e.op),
                taken@.len() <= n,
            decreases s.len() - i,
        {
            let e = self.entries[i];
            proof {
                assert(s.take(i + 1) =~= s.take(i as int).push(s[i as int]));
                lemma_spec_pop_snoc(s.take(i as int), s[i as int], n as nat, now);
            }
            if taken.len() < n && e.op.next_attempt_after <= now {
                taken.push(e.op);
                proof {
                    taken_entries = taken_entries.push(e);
                    assert(taken@ =~= taken_entries.map_values(|q: QueueEntry| q.op));
                }
            } else {
                rest.push(e);
            }
            i = i + 1;
        }
        proof {
            assert(s.take(s.len() as int) =~= s);
            lemma_spec_pop_props(s, n as nat, now);
            assert forall|k: int|
                0 <= k < s.len() && !eligible((#[trigger] s[k]).op, now) implies spec_pop(
                s,
                n as nat,
                now,
            ).1.contains(s[k]) by {
                if spec_pop(s, n as nat, now).0.contains(s[k]) {
                    let j = choose|j: int|
                        0 <= j < spec_pop(s, n as nat, now).0.len() && spec_pop(s, n as nat, now).0[j]
                            == s[k];
                }
            }
            assert forall|k: int|
                0 <= k < spec_pop(s, n as nat, now).1.len() implies (#[trigger] spec_pop(
                s,
                n as nat,
                now,
            ).1[k]).seq < self.next_seq by {
                let x = spec_pop(s, n as nat, now).1[k];
                assert(spec_pop(s, n as nat, now).1.contains(x));
                assert(s.contains(x));
                let j = choose|j: int| 0 <= j < s.len() && s[j] == x;
            }
        }
        self.entries = rest;
        taken
    }

    /// Make every operation matching the retry request immediately
    /// eligible by resetting its `next_attempt_after` to `now`.
    pub fn process_retry_request(&mut self, req: MessageRetryRequest, now: u64)
        requires
            old(self).wf(),
        ensures
            final(self).wf(),
            final(self).next_seq() == old(self).next_seq(),
            final(self)@ == spec_retry(old(self)@, req, now),
            final(self)@.len() == old(self)@.len(),
    {
        let ghost s = self.entries@;
        let mut updated: Vec<QueueEntry> = Vec::new();
        let mut i: usize = 0;
        while i < self.entries.len()
            invariant
                0 <= i <= s.len(),
                self.entries@ == s,
                updated@ == spec_retry(s.take(i as int), req, now),
            decreases s.len() - i,
        {
            let e = self.entries[i];
            let mut ne = e;
            if req.matches_operation(&e.op) {
                ne.op.next_attempt_after = now;
            }
            updated.push(ne);
            proof {
                assert(s.take(i + 1) =~= s.take(i as int).push(s[i as int]));
                assert(updated@ =~= spec_retry(s.take(i + 1), req, now));
            }
            i = i + 1;
        }
        proof {
            assert(s.take(s.len() as int) =~= s);
            assert forall|a: int, b: int|
                #![trigger spec_retry(s, req, now)[a], spec_retry(s, req, now)[b]]
                0 <= a < b < s.len() implies entry_lt(
                spec_retry(s, req, now)[a],
                spec_retry(s, req, now)[b],
            ) by {
                assert(entry_lt(s[a], s[b]));
            }
            assert(seqs_bounded(spec_retry(s, req, now), self.next_seq));
        }
        self.entries = updated;
    }
}

/// Replaying the same retry request twice has the same effect as replaying
/// it once: resetting `next_attempt_after` is idempotent.
pub proof fn lemma_retry_idempotent(s: Seq<QueueEntry>, req: MessageRetryRequest, now: u64)
    ensures
        spec_retry(spec_retry(s, req, now), req, now) == spec_retry(s, req, now),
{
    let once = spec_retry(s, req, now);
    assert forall|i: int| 0 <= i < s.len() implies #[trigger] spec_retry(once, req, now)[i]
        == once[i] by {
        assert(once[i] == if req.spec_matches(s[i].op) {
            QueueEntry { op: Operation { next_attempt_after: now, ..s[i].op }, seq: s[i].seq }
        } else {
            s[i]
        });
    }
    assert(spec_retry(once, req, now) =~= once);
}

/// What a series of pushes does: each operation in turn is inserted in
/// priority order, receiving consecutive sequence numbers from `start` on.
/// The operations carry the status they are pushed with.
pub open spec fn spec_push_all(s: Seq<QueueEntry>, ops: Seq<Operation>, start: int) -> Seq<
    QueueEntry,
>
    decreases ops.len(),
{
    if ops.len() == 0 {
        s
    } else {
        spec_push_all(
            spec_insert(s, QueueEntry { op: ops[0], seq: start as u64 }),
            ops.drop_first(),
            start + 1,
        )
    }
}

pub proof fn lemma_insert_len(s: Seq<QueueEntry>, e: QueueEntry)
    ensures
        spec_insert(s, e).len() == s.len() + 1,
    decreases s.len(),
{
    if s.len() == 0 {
    } else if entry_lt(e, s[0]) {
    } else {
        lemma_insert_len(s.drop_first(), e);
    }
}

/// Pushing one more operation after a series of pushes inserts it with the
/// next sequence number.
pub proof fn lemma_push_all_snoc(s: Seq<QueueEntry>, ops: Seq<Operation>, o: Operation, start: int)
    ensures
        spec_push_all(s, ops.push(o), start) == spec_insert(
            spec_push_all(s, ops, start),
            QueueEntry { op: o, seq: (start + ops.len()) as u64 },
        ),
    decreases ops.len(),
{
    if ops.len() == 0 {
        assert(ops.push(o)[0] == o);
        assert(ops.push(o).drop_first() =~= Seq::<Operation>::empty());
        assert(spec_push_all(
            spec_insert(s, QueueEntry { op: o, seq: start as u64 }),
            ops.push(o).drop_first(),
            start + 1,
        ) == spec_insert(s, QueueEntry { op: o, seq: start as u64 }));
    } else {
        assert(ops.push(o)[0] == ops[0]);
        assert(ops.push(o).drop_first() =~= ops.drop_first().push(o));
        lemma_push_all_snoc(
            spec_insert(s, QueueEntry { op: ops[0], seq: start as u64 }),
            ops.drop_first(),
            o,
            start + 1,
        );
    }
}

pub proof fn lemma_push_all_len(s: Seq<QueueEntry>, ops: Seq<Operation>, start: int)
    ensures
        spec_push_all(s, ops, start).len() == s.len() + ops.len(),
    decreases ops.len(),
{
    if ops.len() == 0 {
    } else {
        lemma_insert_len(s, QueueEntry { op: ops[0], seq: start as u64 });
        lemma_push_all_len(
            spec_insert(s, QueueEntry { op: ops[0], seq: start as u64 }),
            ops.drop_first(),
            start + 1,
        );
    }
}

/// Every operation in the queue is bound for this destination domain.
pub open spec fn all_for_domain(s: Seq<QueueEntry>, d: crate::op::Domain) -> bool {
    forall|i: int| 0 <= i < s.len() ==> (#[trigger] s[i]).op.destination_domain == d
}

pub proof fn lemma_insert_preserves_domain(s: Seq<QueueEntry>, e: QueueEntry, d: crate::op::Domain)
    requires
        all_for_domain(s, d),
        e.op.destination_domain == d,
    ensures
        all_for_domain(spec_insert(s, e), d),
    decreases s.len(),
{
    if s.len() == 0 {
    } else if entry_lt(e, s[0]) {
        let t = spec_insert(s, e);
        assert forall|i: int|
            0 <= i < t.len() implies (#[trigger] t[i]).op.destination_domain == d by {
            if i > 0 {
                assert(t[i] == s[i - 1]);
            }
        }
    } else {
        assert forall|i: int|
            0 <= i < s.drop_first().len() implies (#[trigger] s.drop_first()[i]).op.destination_domain
            == d by {
            assert(s.drop_first()[i] == s[i + 1]);
        }
        lemma_insert_preserves_domain(s.drop_first(), e, d);
        let t = spec_insert(s, e);
        let t0 = spec_insert(s.drop_first(), e);
        assert forall|i: int|
            0 <= i < t.len() implies (#[trigger] t[i]).op.destination_domain == d by {
            if i > 0 {
                assert(t[i] == t0[i - 1]);
            }
        }
    }
}

/// A stage that pushes only operations bound for its own domain keeps the
/// queue domain-pure: the heart of the destination-domain invariant.
pub proof fn lemma_push_all_preserves_domain(
    s: Seq<QueueEntry>,
    ops: Seq<Operation>,
    start: int,
    d: crate::op::Domain,
)
    requires
        all_for_domain(s, d),
        forall|i: int| 0 <= i < ops.len() ==> (#[trigger] ops[i]).destination_domain == d,
    ensures
        all_for_domain(spec_push_all(s, ops, start), d),
    decreases ops.len(),
{
    if ops.len() == 0 {
    } else {
        lemma_insert_preserves_domain(s, QueueEntry { op: ops[0], seq: start as u64 }, d);
        assert forall|i: int|
            0 <= i < ops.drop_first().len() implies (#[trigger] ops.drop_first()[i]).destination_domain
            == d by {
            assert(ops.drop_first()[i] == ops[i + 1]);
        }
        lemma_push_all_preserves_domain(
            spec_insert(s, QueueEntry { op: ops[0], seq: start as u64 }),
            ops.drop_first(),
            start + 1,
            d,
        );
    }
}

/// Among entries with an equal retry count, priority order is insertion
/// order: if `t[i]` was enqueued before `t[j]` (smaller sequence number)
/// then it stands earlier in any priority-sorted sequence, in particular in
/// the queue itself and in every batch `pop_many` returns.
pub proof fn lemma_fifo_among_equal_retries(t: Seq<QueueEntry>, i: int, j: int)
    requires
        priority_sorted(t),
        0 <= i < t.len(),
        0 <= j < t.len(),
        t[i].op.num_retries == t[j].op.num_retries,
        t[i].seq < t[j].seq,
    ensures
        i < j,
{
    if j < i {
        assert(entry_lt(t[j], t[i]));
    } else if i == j {
        assert(t[i].seq < t[i].seq);
    }
}

} // verus!
