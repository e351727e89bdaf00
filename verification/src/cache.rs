use vstd::prelude::*;

use crate::address::Address;
use crate::scheduler::{Task, TaskStatus};

verus! {

/// First value stored under key `a`, scanning left to right.
pub open spec fn assoc_get<V>(s: Seq<(Address, V)>, a: Address) -> Option<V>
    decreases s.len(),
{
    if s.len() == 0 {
        None
    } else if s[0].0 == a {
        Some(s[0].1)
    } else {
        assoc_get(s.subrange(1, s.len() as int), a)
    }
}

/// No key occurs twice.
pub open spec fn unique_keys<V>(s: Seq<(Address, V)>) -> bool {
    forall|i: int, j: int| 0 <= i < j < s.len() ==> (#[trigger] s[i]).0 != (#[trigger] s[j]).0
}

proof fn lemma_assoc_absent<V>(s: Seq<(Address, V)>, a: Address)
    requires
        forall|j: int| 0 <= j < s.len() ==> (#[trigger] s[j]).0 != a,
    ensures
        assoc_get(s, a) is None,
    decreases s.len(),
{
    if s.len() > 0 {
        lemma_assoc_absent(s.subrange(1, s.len() as int), a);
    }
}

proof fn lemma_assoc_first<V>(s: Seq<(Address, V)>, a: Address, i: int)
    requires
        0 <= i < s.len(),
        s[i].0 == a,
        forall|j: int| 0 <= j < i ==> (#[trigger] s[j]).0 != a,
    ensures
        assoc_get(s, a) == Some(s[i].1),
    decreases s.len(),
{
    if i > 0 {
        let tail = s.subrange(1, s.len() as int);
        assert(forall|j: int| 0 <= j < i - 1 ==> (#[trigger] tail[j]).0 != a);
        lemma_assoc_first(tail, a, i - 1);
    }
}

proof fn lemma_assoc_push<V>(s: Seq<(Address, V)>, a: Address, v: V, b: Address)
    requires
        assoc_get(s, a) is None,
    ensures
        assoc_get(s.push((a, v)), b) == (if b == a {
            Some(v)
        } else {
            assoc_get(s, b)
        }),
    decreases s.len(),
{
    assert(s.push((a, v))[s.len() as int] == (a, v));
    if s.len() == 0 {
        assert(s.push((a, v)).subrange(1, 1) =~= Seq::<(Address, V)>::empty());
        if b == a {
            assert(assoc_get(s.push((a, v)), b) == Some(v));
        } else {
            assert(assoc_get(s.push((a, v)), b) == assoc_get(s.push((a, v)).subrange(1, 1), b));
            assert(assoc_get(s.push((a, v)), b) is None);
            assert(assoc_get(s, b) is None);
        }
    } else {
        assert(s.push((a, v))[0] == s[0]);
        assert(s[0].0 != a);
        assert(s.push((a, v)).subrange(1, s.len() as int + 1) =~= s.subrange(
            1,
            s.len() as int,
        ).push((a, v)));
        lemma_assoc_push(s.subrange(1, s.len() as int), a, v, b);
        if s[0].0 == b {
            assert(assoc_get(s.push((a, v)), b) == Some(s[0].1));
            assert(assoc_get(s, b) == Some(s[0].1));
        } else {
            assert(assoc_get(s.push((a, v)), b) == assoc_get(
                s.subrange(1, s.len() as int).push((a, v)),
                b,
            ));
            assert(assoc_get(s, b) == assoc_get(s.subrange(1, s.len() as int), b));
        }
    }
}

proof fn lemma_assoc_update<V>(s: Seq<(Address, V)>, i: int, a: Address, v: V, b: Address)
    requires
        0 <= i < s.len(),
        s[i].0 == a,
        forall|j: int| 0 <= j < i ==> (#[trigger] s[j]).0 != a,
    ensures
        assoc_get(s.update(i, (a, v)), b) == (if b == a {
            Some(v)
        } else {
            assoc_get(s, b)
        }),
    decreases s.len(),
{
    let s2 = s.update(i, (a, v));
    if i == 0 {
        assert(s2.subrange(1, s2.len() as int) =~= s.subrange(1, s.len() as int));
    } else {
        assert(s2.subrange(1, s2.len() as int) =~= s.subrange(1, s.len() as int).update(
            i - 1,
            (a, v),
        ));
        let tail = s.subrange(1, s.len() as int);
        assert(forall|j: int| 0 <= j < i - 1 ==> (#[trigger] tail[j]).0 != a);
        lemma_assoc_update(tail, i - 1, a, v, b);
    }
}

proof fn lemma_assoc_remove<V>(s: Seq<(Address, V)>, i: int, a: Address, b: Address)
    requires
        0 <= i < s.len(),
        s[i].0 == a,
        forall|j: int| 0 <= j < s.len() && j != i ==> (#[trigger] s[j]).0 != a,
    ensures
        assoc_get(s.remove(i), b) == (if b == a {
            None::<V>
        } else {
            assoc_get(s, b)
        }),
    decreases s.len(),
{
    let s2 = s.remove(i);
    if i == 0 {
        assert(s2 =~= s.subrange(1, s.len() as int));
        lemma_assoc_absent(s2, a);
    } else {
        assert(s2.subrange(1, s2.len() as int) =~= s.subrange(1, s.len() as int).remove(i - 1));
        let tail = s.subrange(1, s.len() as int);
        assert(forall|j: int| 0 <= j < tail.len() && j != i - 1 ==> (#[trigger] tail[j]).0 != a);
        lemma_assoc_remove(tail, i - 1, a, b);
    }
}

/// A state-change notification: the record's address, the program that
/// owns it, its monotonic version (slot), and the task record image it
/// carries.
#[derive(Clone, Debug)]
pub struct Notification {
    pub address: Address,
    pub owner: Address,
    pub version: u64,
    pub record: Task,
}

/// Filters the notification stream to task-relevant changes: only records
/// owned by the scheduler program are mirrored.
#[derive(Clone, Copy, Debug, PartialEq, Eq, Structural)]
pub struct Filter {
    pub program: Address,
}

impl Filter {
    pub open spec fn spec_relevant(self, n: Notification) -> bool {
        n.owner == self.program
    }

    /// Whether this notification concerns a scheduler-owned record.
    pub fn is_relevant(&self, n: &Notification) -> (b: bool)
        ensures
            b == self.spec_relevant(*n),
    {
        n.owner == self.program
    }
}

/// One mirrored task record with the version that produced it.
#[derive(Clone, Debug)]
pub struct CacheEntry {
    pub version: u64,
    pub task: Task,
}

/// Whether a notification at `version` may replace the present entry:
/// last write wins by version, and a stale or duplicate version is
/// discarded.
pub open spec fn version_applies(present: Option<CacheEntry>, version: u64) -> bool {
    match present {
        None => true,
        Some(e) => e.version < version,
    }
}

/// The in-memory mirror of task records, keyed by record address.
#[derive(Clone, Debug)]
pub struct TaskCache {
    pub entries: Vec<(Address, CacheEntry)>,
}

impl TaskCache {
    pub open spec fn wf(self) -> bool {
        unique_keys(self.entries@)
    }

    pub open spec fn spec_get(self, a: Address) -> Option<CacheEntry> {
        assoc_get(self.entries@, a)
    }

    pub fn new() -> (r: TaskCache)
        ensures
            r.wf(),
            forall|a: Address| r.spec_get(a) is None,
    {
        let r = TaskCache { entries: Vec::new() };
        proof {
            assert forall|a: Address| r.spec_get(a) is None by {
                lemma_assoc_absent(r.entries@, a);
            }
        }
        r
    }

    /// Index of the entry for `a`, if any.
    fn find_index(&self, a: Address) -> (r: Option<usize>)
        ensures
            r matches Some(i) ==> i < self.entries@.len() && self.entries@[i as int].0 == a && (
            forall|j: int| 0 <= j < i ==> (#[trigger] self.entries@[j]).0 != a),
            r is None ==> forall|j: int|
                0 <= j < self.entries@.len() ==> (#[trigger] self.entries@[j]).0 != a,
    {
        let mut i: usize = 0;
        while i < self.entries.len()
            invariant
                i <= self.entries@.len(),
                forall|j: int| 0 <= j < i ==> (#[trigger] self.entries@[j]).0 != a,
            decreases self.entries@.len() - i,
        {
            if self.entries[i].0 == a {
                return Some(i);
            }
            i = i + 1;
        }
        None
    }

    /// The mirrored record for `a`, with its version.
    pub fn get(&self, a: Address) -> (r: Option<&CacheEntry>)
        ensures
            match r {
                Some(e) => self.spec_get(a) == Some(*e),
                None => self.spec_get(a) is None,
            },
    {
        match self.find_index(a) {
            Some(i) => {
                proof {
                    lemma_assoc_first(self.entries@, a, i as int);
                }
                Some(&self.entries[i].1)
            },
            None => {
                proof {
                    lemma_assoc_absent(self.entries@, a);
                }
                None
            },
        }
    }

    /// Apply one notification to the mirror.
    ///
    /// An irrelevant notification changes nothing. A relevant one replaces
    /// the entry for its address exactly when its version is newer than
    /// the mirrored one (or the address is not mirrored yet); overlapping
    /// and reordered duplicates are thereby discarded, last write wins.
    pub fn observe(&mut self, filter: &Filter, n: Notification) -> (applied: bool)
        requires
            old(self).wf(),
        ensures
            final(self).wf(),
            applied == (filter.spec_relevant(n) && version_applies(
                old(self).spec_get(n.address),
                n.version,
            )),
            !applied ==> *final(self) == *old(self),
            applied ==> forall|b: Address|
                #![trigger final(self).spec_get(b)]
                final(self).spec_get(b) == (if b == n.address {
                    Some(CacheEntry { version: n.version, task: n.record })
                } else {
                    old(self).spec_get(b)
                }),
    {
        if !filter.is_relevant(&n) {
            return false;
        }
        let entry = CacheEntry { version: n.version, task: n.record };
        match self.find_index(n.address) {
            Some(i) => {
                proof {
                    lemma_assoc_first(self.entries@, n.address, i as int);
                }
                if self.entries[i].1.version < n.version {
                    proof {
                        lemma_assoc_update_all(self.entries@, i as int, n.address, entry);
                    }
                    let ghost s0 = self.entries@;
                    self.entries.set(i, (n.address, entry));
                    proof {
                        assert forall|p: int, q: int|
                            0 <= p < q < self.entries@.len() implies (#[trigger] self.entries@[p]).0
                            != (#[trigger] self.entries@[q]).0 by {
                            assert(s0[p].0 != s0[q].0);
                        }
                    }
                    true
                } else {
                    false
                }
            },
            None => {
                proof {
                    lemma_assoc_absent(self.entries@, n.address);
                    lemma_assoc_push_all(self.entries@, n.address, entry);
                }
                let ghost s0 = self.entries@;
                self.entries.push((n.address, entry));
                proof {
                    assert forall|p: int, q: int|
                        0 <= p < q < self.entries@.len() implies (#[trigger] self.entries@[p]).0
                        != (#[trigger] self.entries@[q]).0 by {
                        if q < s0.len() {
                            assert(s0[p].0 != s0[q].0);
                        } else {
                            assert(self.entries@[q].0 == n.address);
                            assert(s0[p].0 != n.address);
                        }
                    }
                }
                true
            },
        }
    }
}

proof fn lemma_assoc_push_all<V>(s: Seq<(Address, V)>, a: Address, v: V)
    requires
        assoc_get(s, a) is None,
    ensures
        forall|b: Address|
            #![trigger assoc_get(s.push((a, v)), b)]
            assoc_get(s.push((a, v)), b) == (if b == a {
                Some(v)
            } else {
                assoc_get(s, b)
            }),
{
    assert forall|b: Address|
        assoc_get(s.push((a, v)), b) == (if b == a {
            Some(v)
        } else {
            assoc_get(s, b)
        }) by {
        lemma_assoc_push(s, a, v, b);
    }
}

proof fn lemma_assoc_update_all<V>(s: Seq<(Address, V)>, i: int, a: Address, v: V)
    requires
        0 <= i < s.len(),
        s[i].0 == a,
        forall|j: int| 0 <= j < i ==> (#[trigger] s[j]).0 != a,
    ensures
        forall|b: Address|
            #![trigger assoc_get(s.update(i, (a, v)), b)]
            assoc_get(s.update(i, (a, v)), b) == (if b == a {
                Some(v)
            } else {
                assoc_get(s, b)
            }),
{
    assert forall|b: Address|
        assoc_get(s.update(i, (a, v)), b) == (if b == a {
            Some(v)
        } else {
            assoc_get(s, b)
        }) by {
        lemma_assoc_update(s, i, a, v, b);
    }
}

/// What `observe` leaves at one address: mirrors its contract, for stating
/// laws over chains of notifications.
pub open spec fn observe_post(pre: TaskCache, post: TaskCache, f: Filter, n: Notification) -> bool {
    &&& (f.spec_relevant(n) && version_applies(pre.spec_get(n.address), n.version)) ==> (forall|
        b: Address,
    |
        #![trigger post.spec_get(b)]
        post.spec_get(b) == (if b == n.address {
            Some(CacheEntry { version: n.version, task: n.record })
        } else {
            pre.spec_get(b)
        }))
    &&& !(f.spec_relevant(n) && version_applies(pre.spec_get(n.address), n.version)) ==> post == pre
}

/// Law (cache dedup): two relevant notifications for the same address with
/// different versions, arriving in either order at an address not yet
/// mirrored, leave the mirror at the newer version's record.
pub proof fn lemma_cache_dedup(
    c0: TaskCache,
    c1: TaskCache,
    c2: TaskCache,
    f: Filter,
    newer: Notification,
    older: Notification,
    newer_first: bool,
)
    requires
        newer.address == older.address,
        newer.version > older.version,
        f.spec_relevant(newer),
        f.spec_relevant(older),
        c0.spec_get(newer.address) is None,
        newer_first ==> observe_post(c0, c1, f, newer) && observe_post(c1, c2, f, older),
        !newer_first ==> observe_post(c0, c1, f, older) && observe_post(c1, c2, f, newer),
    ensures
        c2.spec_get(newer.address) == Some(
            CacheEntry { version: newer.version, task: newer.record },
        ),
{
}

/// Tracks in-flight execution submissions: at most one may be outstanding
/// per task at a time; a mark goes stale `timeout` seconds after it was
/// set, and a stale mark no longer blocks (re-)submission.
#[derive(Clone, Debug)]
pub struct Bucket {
    pub inflight: Vec<(Address, u64)>,
    pub timeout: u64,
}

impl Bucket {
    pub open spec fn wf(self) -> bool {
        unique_keys(self.inflight@)
    }

    pub open spec fn spec_mark(self, a: Address) -> Option<u64> {
        assoc_get(self.inflight@, a)
    }

    /// Whether a live (unexpired) mark blocks submission for `a` at `now`.
    pub open spec fn is_blocked(self, a: Address, now: u64) -> bool {
        match assoc_get(self.inflight@, a) {
            Some(t) => now < t + self.timeout,
            None => false,
        }
    }

    pub fn new(timeout: u64) -> (r: Bucket)
        ensures
            r.wf(),
            r.timeout == timeout,
            forall|a: Address| r.spec_mark(a) is None,
    {
        let r = Bucket { inflight: Vec::new(), timeout };
        proof {
            assert forall|a: Address| r.spec_mark(a) is None by {
                lemma_assoc_absent(r.inflight@, a);
            }
        }
        r
    }

    fn find_index(&self, a: Address) -> (r: Option<usize>)
        ensures
            r matches Some(i) ==> i < self.inflight@.len() && self.inflight@[i as int].0 == a && (
            forall|j: int| 0 <= j < i ==> (#[trigger] self.inflight@[j]).0 != a),
            r is None ==> forall|j: int|
                0 <= j < self.inflight@.len() ==> (#[trigger] self.inflight@[j]).0 != a,
    {
        let mut i: usize = 0;
        while i < self.inflight.len()
            invariant
                i <= self.inflight@.len(),
                forall|j: int| 0 <= j < i ==> (#[trigger] self.inflight@[j]).0 != a,
            decreases self.inflight@.len() - i,
        {
            if self.inflight[i].0 == a {
                return Some(i);
            }
            i = i + 1;
        }
        None
    }

    /// Mark task `a` in flight, unless a live mark already blocks it.
    ///
    /// Returns whether the mark was taken: exactly when no unexpired mark
    /// exists for `a`. A stale mark (set `timeout` or more seconds ago) is
    /// treated as lost and replaced.
    pub fn try_acquire(&mut self, a: Address, now: u64) -> (r: bool)
        requires
            old(self).wf(),
        ensures
            final(self).wf(),
            final(self).timeout == old(self).timeout,
            r == !old(self).is_blocked(a, now),
            !r ==> *final(self) == *old(self),
            r ==> forall|b: Address|
                #![trigger final(self).spec_mark(b)]
                final(self).spec_mark(b) == (if b == a {
                    Some(now)
                } else {
                    old(self).spec_mark(b)
                }),
    {
        match self.find_index(a) {
            Some(i) => {
                proof {
                    lemma_assoc_first(self.inflight@, a, i as int);
                }
                let issued = self.inflight[i].1;
                if now < issued || now - issued < self.timeout {
                    return false;
                }
                proof {
                    lemma_assoc_update_all(self.inflight@, i as int, a, now);
                }
                let ghost s0 = self.inflight@;
                self.inflight.set(i, (a, now));
                proof {
                    assert forall|p: int, q: int|
                        0 <= p < q < self.inflight@.len() implies (#[trigger] self.inflight@[p]).0
                        != (#[trigger] self.inflight@[q]).0 by {
                        assert(s0[p].0 != s0[q].0);
                    }
                }
                true
            },
            None => {
                proof {
                    lemma_assoc_absent(self.inflight@, a);
                    lemma_assoc_push_all(self.inflight@, a, now);
                }
                let ghost s0 = self.inflight@;
                self.inflight.push((a, now));
                proof {
                    assert forall|p: int, q: int|
                        0 <= p < q < self.inflight@.len() implies (#[trigger] self.inflight@[p]).0
                        != (#[trigger] self.inflight@[q]).0 by {
                        if q < s0.len() {
                            assert(s0[p].0 != s0[q].0);
                        } else {
                            assert(self.inflight@[q].0 == a);
                            assert(s0[p].0 != a);
                        }
                    }
                }
                true
            },
        }
    }

    /// Clear the mark for `a`: an execution confirmation or failure
    /// notification resolves the submission, whatever its timing.
    pub fn release(&mut self, a: Address) -> (r: bool)
        requires
            old(self).wf(),
        ensures
            final(self).wf(),
            final(self).timeout == old(self).timeout,
            r == (old(self).spec_mark(a) is Some),
            forall|b: Address|
                #![trigger final(self).spec_mark(b)]
                final(self).spec_mark(b) == (if b == a {
                    None::<u64>
                } else {
                    old(self).spec_mark(b)
                }),
    {
        match self.find_index(a) {
            Some(i) => {
                proof {
                    lemma_assoc_first(self.inflight@, a, i as int);
                    assert forall|j: int|
                        0 <= j < self.inflight@.len() && j != i implies (
                        #[trigger] self.inflight@[j]).0 != a by {
                        if j > i {
                            assert(self.inflight@[i as int].0 != self.inflight@[j].0);
                        }
                    }
                    assert forall|b: Address|
                        assoc_get(self.inflight@.remove(i as int), b) == (if b == a {
                            None::<u64>
                        } else {
                            assoc_get(self.inflight@, b)
                        }) by {
                        lemma_assoc_remove(self.inflight@, i as int, a, b);
                    }
                }
                let ghost s0 = self.inflight@;
                self.inflight.remove(i);
                proof {
                    assert(self.inflight@ =~= s0.remove(i as int));
                    assert forall|p: int, q: int|
                        0 <= p < q < self.inflight@.len() implies (#[trigger] self.inflight@[p]).0
                        != (#[trigger] self.inflight@[q]).0 by {
                        let p0 = if p < i {
                            p
                        } else {
                            p + 1
                        };
                        let q0 = if q < i {
                            q
                        } else {
                            q + 1
                        };
                        assert(s0[p0].0 != s0[q0].0);
                    }
                }
                true
            },
            None => {
                proof {
                    lemma_assoc_absent(self.inflight@, a);
                }
                false
            },
        }
    }
}

proof fn lemma_assoc_none_no_key<V>(s: Seq<(Address, V)>, a: Address)
    requires
        assoc_get(s, a) is None,
    ensures
        forall|j: int| 0 <= j < s.len() ==> (#[trigger] s[j]).0 != a,
    decreases s.len(),
{
    if s.len() > 0 {
        lemma_assoc_none_no_key(s.subrange(1, s.len() as int), a);
        assert forall|j: int| 0 <= j < s.len() implies (#[trigger] s[j]).0 != a by {
            if j > 0 {
                assert(s.subrange(1, s.len() as int)[j - 1] == s[j]);
            }
        }
    }
}

impl Bucket {
    /// The periodic sweep: drop every mark that has been in flight for
    /// `timeout` seconds or longer without resolving, so those tasks
    /// become eligible for retry; live marks are kept untouched.
    pub fn sweep(&mut self, now: u64)
        requires
            old(self).wf(),
        ensures
            final(self).wf(),
            final(self).timeout == old(self).timeout,
            forall|b: Address|
                #![trigger final(self).spec_mark(b)]
                final(self).spec_mark(b) == (match old(self).spec_mark(b) {
                    Some(t) => if now < t + old(self).timeout {
                        Some(t)
                    } else {
                        None::<u64>
                    },
                    None => None::<u64>,
                }),
    {
        let mut kept: Vec<(Address, u64)> = Vec::new();
        let mut i: usize = 0;
        proof {
            assert forall|b: Address| #![trigger assoc_get(kept@, b)] assoc_get(kept@, b) is None
                && assoc_get(self.inflight@.subrange(0, 0), b) is None by {
                lemma_assoc_absent(kept@, b);
                lemma_assoc_absent(self.inflight@.subrange(0, 0), b);
            }
        }
        while i < self.inflight.len()
            invariant
                i <= self.inflight@.len(),
                unique_keys(self.inflight@),
                unique_keys(kept@),
                forall|b: Address|
                    #![trigger assoc_get(kept@, b)]
                    assoc_get(kept@, b) == (match assoc_get(
                        self.inflight@.subrange(0, i as int),
                        b,
                    ) {
                        Some(t) => if now < t + self.timeout {
                            Some(t)
                        } else {
                            None::<u64>
                        },
                        None => None::<u64>,
                    }),
            decreases self.inflight@.len() - i,
        {
            let (k, t) = self.inflight[i];
            let ghost prefix = self.inflight@.subrange(0, i as int);
            proof {
                assert forall|j: int| 0 <= j < prefix.len() implies (#[trigger] prefix[j]).0
                    != k by {
                    assert(self.inflight@[j].0 != self.inflight@[i as int].0);
                }
                lemma_assoc_absent(prefix, k);
                lemma_assoc_push_all(prefix, k, t);
                assert(self.inflight@.subrange(0, i as int + 1) =~= prefix.push((k, t)));
            }
            let live = now < t || now - t < self.timeout;
            if live {
                let ghost kept0 = kept@;
                proof {
                    lemma_assoc_none_no_key(kept0, k);
                    lemma_assoc_push_all(kept0, k, t);
                }
                kept.push((k, t));
                proof {
                    assert forall|p: int, q: int|
                        0 <= p < q < kept@.len() implies (#[trigger] kept@[p]).0 != (
                        #[trigger] kept@[q]).0 by {
                        if q < kept0.len() {
                            assert(kept0[p].0 != kept0[q].0);
                        } else {
                            assert(kept@[q].0 == k);
                            assert(kept0[p].0 != k);
                        }
                    }
                }
            }
            i = i + 1;
        }
        proof {
            assert(self.inflight@.subrange(0, self.inflight@.len() as int) =~= self.inflight@);
        }
        self.inflight = kept;
    }
}

/// Law (at most one in flight): with a mark set at `t1` for task `a`, a
/// further acquisition attempt at any `t2` before the timeout elapses is
/// blocked, and once the timeout has elapsed the task is eligible again.
pub proof fn lemma_at_most_one_in_flight(b: Bucket, a: Address, t1: u64, t2: u64)
    requires
        b.spec_mark(a) == Some(t1),
    ensures
        t2 < t1 + b.timeout ==> b.is_blocked(a, t2),
        t2 >= t1 + b.timeout ==> !b.is_blocked(a, t2),
{
}

/// Whether a mirrored task is due for execution at `now`.
pub open spec fn spec_due(e: CacheEntry, now: u64) -> bool {
    e.task.status is Scheduled && e.task.next_due <= now
}

/// Evaluate due-ness over the whole mirror and mark every dispatched task
/// in flight.
///
/// Returns the addresses to submit: exactly those whose mirrored task is
/// due at `now` and not blocked by a live in-flight mark, each at most
/// once, each marked in the bucket before it is returned.
pub fn dispatch_due(cache: &TaskCache, bucket: &mut Bucket, now: u64) -> (r: Vec<Address>)
    requires
        cache.wf(),
        old(bucket).wf(),
    ensures
        final(bucket).wf(),
        final(bucket).timeout == old(bucket).timeout,
        forall|k: int|
            0 <= k < r@.len() ==> {
                let a = #[trigger] r@[k];
                &&& (cache.spec_get(a) matches Some(e) && spec_due(e, now))
                &&& !old(bucket).is_blocked(a, now)
                &&& final(bucket).spec_mark(a) == Some(now)
            },
        forall|i: int|
            0 <= i < cache.entries@.len() ==> {
                let a = (#[trigger] cache.entries@[i]).0;
                (spec_due(cache.entries@[i].1, now) && !old(bucket).is_blocked(a, now))
                    ==> r@.contains(a)
            },
        forall|k: int, l: int| 0 <= k < l < r@.len() ==> r@[k] != r@[l],
        forall|b: Address|
            #![trigger final(bucket).spec_mark(b)]
            !r@.contains(b) ==> final(bucket).spec_mark(b) == old(bucket).spec_mark(b),
{
    let mut out: Vec<Address> = Vec::new();
    let mut i: usize = 0;
    while i < cache.entries.len()
        invariant
            cache.wf(),
            bucket.wf(),
            i <= cache.entries@.len(),
            bucket.timeout == old(bucket).timeout,
            forall|k: int|
                0 <= k < out@.len() ==> {
                    let a = #[trigger] out@[k];
                    &&& (cache.spec_get(a) matches Some(e) && spec_due(e, now))
                    &&& !old(bucket).is_blocked(a, now)
                    &&& bucket.spec_mark(a) == Some(now)
                },
            forall|j: int|
                0 <= j < i ==> {
                    let a = (#[trigger] cache.entries@[j]).0;
                    (spec_due(cache.entries@[j].1, now) && !old(bucket).is_blocked(a, now))
                        ==> out@.contains(a)
                },
            forall|k: int, l: int| 0 <= k < l < out@.len() ==> out@[k] != out@[l],
            forall|k: int|
                0 <= k < out@.len() ==> exists|j: int|
                    0 <= j < i && (#[trigger] out@[k]) == cache.entries@[j].0,
            forall|b: Address|
                #![trigger bucket.spec_mark(b)]
                !out@.contains(b) ==> bucket.spec_mark(b) == old(bucket).spec_mark(b),
        decreases cache.entries@.len() - i,
    {
        let a = cache.entries[i].0;
        let due = {
            let e = &cache.entries[i].1;
            matches!(e.task.status, TaskStatus::Scheduled) && e.task.next_due <= now
        };
        if due {
            proof {
                lemma_assoc_first_of_wf(cache.entries@, i as int);
            }
            let ghost out0 = out@;
            let ghost bpre = *bucket;
            proof {
                assert forall|k: int| 0 <= k < out0.len() implies out0[k] != a by {
                    let j = choose|j: int| 0 <= j < i && out0[k] == cache.entries@[j].0;
                    assert(cache.entries@[j].0 != cache.entries@[i as int].0);
                }
                assert(!out0.contains(a));
                assert(bpre.spec_mark(a) == old(bucket).spec_mark(a));
            }
            if bucket.try_acquire(a, now) {
                out.push(a);
                proof {
                    assert(out@ =~= out0.push(a));
                    assert(out@[out0.len() as int] == a);
                    assert(out@.contains(a));
                    assert forall|b: Address| out0.contains(b) implies out@.contains(b) by {
                        let k = choose|k: int| 0 <= k < out0.len() && out0[k] == b;
                        assert(out@[k] == b);
                    }
                    assert forall|b: Address| !out@.contains(b) implies bucket.spec_mark(b) == old(
                        bucket,
                    ).spec_mark(b) by {
                        assert forall|k: int| 0 <= k < out0.len() implies out0[k] != b by {
                            assert(out@[k] == out0[k]);
                        }
                        assert(!out0.contains(b));
                        assert(b != a);
                        assert(bucket.spec_mark(b) == bpre.spec_mark(b));
                    }
                    assert forall|k: int|
                        0 <= k < out@.len() implies exists|j: int|
                            0 <= j < i + 1 && (#[trigger] out@[k]) == cache.entries@[j].0 by {
                        if k < out0.len() {
                            assert(out@[k] == out0[k]);
                            let j = choose|j: int| 0 <= j < i && out0[k] == cache.entries@[j].0;
                            assert(0 <= j < i + 1 && out@[k] == cache.entries@[j].0);
                        } else {
                            assert(out@[k] == cache.entries@[i as int].0);
                        }
                    }
                }
            } else {
                proof {
                    assert(bpre.is_blocked(a, now));
                    if !old(bucket).is_blocked(a, now) {
                        assert(false);
                    }
                }
            }
        }
        i = i + 1;
    }
    out
}

/// In a well-formed table, the entry at index `i` is the one `assoc_get`
/// finds for its key.
proof fn lemma_assoc_first_of_wf<V>(s: Seq<(Address, V)>, i: int)
    requires
        unique_keys(s),
        0 <= i < s.len(),
    ensures
        assoc_get(s, s[i].0) == Some(s[i].1),
{
    assert forall|j: int| 0 <= j < i implies (#[trigger] s[j]).0 != s[i].0 by {}
    lemma_assoc_first(s, s[i].0, i);
}

} // verus!
