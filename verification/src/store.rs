//! The time-series store of metric records, keyed by validator operator
//! address and cron timestamp.
//!
//! Records are held per validator, each validator's history ordered by
//! ascending timestamp, which gives the ascending range scans their order.
//! A key holds at most one record: saving to an existing key replaces it.
use vstd::prelude::*;

use crate::state::{MetricsView, ValidatorMetrics};

verus! {

/// All records of one validator, ascending by timestamp.
struct Bucket {
    addr: String,
    history: Vec<ValidatorMetrics>,
}

/// Mathematical image of a `Bucket`.
pub ghost struct BucketView {
    pub addr: Seq<char>,
    pub history: Seq<MetricsView>,
}

impl View for Bucket {
    type V = BucketView;

    closed spec fn view(&self) -> BucketView {
        BucketView {
            addr: self.addr@,
            history: self.history@.map_values(|m: ValidatorMetrics| m@),
        }
    }
}

/// The record in `h` whose timestamp is `t`, if one exists.
spec fn find_metric(h: Seq<MetricsView>, t: u64) -> Option<MetricsView>
    decreases h.len(),
{
    if h.len() == 0 {
        None
    } else if h[0].timestamp == t {
        Some(h[0])
    } else {
        find_metric(h.drop_first(), t)
    }
}

/// The history of the bucket for `addr`, if one exists.
spec fn find_history(bs: Seq<BucketView>, addr: Seq<char>) -> Option<Seq<MetricsView>>
    decreases bs.len(),
{
    if bs.len() == 0 {
        None
    } else if bs[0].addr == addr {
        Some(bs[0].history)
    } else {
        find_history(bs.drop_first(), addr)
    }
}

/// Timestamps in a history strictly increase.
spec fn sorted_by_timestamp(h: Seq<MetricsView>) -> bool {
    forall|i: int, j: int| 0 <= i < j < h.len() ==> h[i].timestamp < h[j].timestamp
}

/// A history is well-formed for its bucket address: sorted, and every record
/// names that address as its own.
spec fn history_wf(addr: Seq<char>, h: Seq<MetricsView>) -> bool {
    &&& sorted_by_timestamp(h)
    &&& forall|k: int| 0 <= k < h.len() ==> (#[trigger] h[k]).operator_addr == addr
}

/// No two buckets share an address.
spec fn distinct_addrs(bs: Seq<BucketView>) -> bool {
    forall|i: int, j: int| 0 <= i < j < bs.len() ==> bs[i].addr != bs[j].addr
}

proof fn lemma_find_history_skip(bs: Seq<BucketView>, addr: Seq<char>, i: int)
    requires
        0 <= i <= bs.len(),
        forall|j: int| 0 <= j < i ==> bs[j].addr != addr,
    ensures
        find_history(bs, addr) == find_history(bs.skip(i), addr),
    decreases i,
{
    if i > 0 {
        lemma_find_history_skip(bs.drop_first(), addr, i - 1);
        assert(bs.drop_first().skip(i - 1) =~= bs.skip(i));
    } else {
        assert(bs.skip(0) =~= bs);
    }
}

proof fn lemma_find_history_props(bs: Seq<BucketView>, addr: Seq<char>)
    ensures
        find_history(bs, addr) is None ==> forall|i: int| 0 <= i < bs.len() ==> bs[i].addr != addr,
        find_history(bs, addr) matches Some(h) ==> exists|i: int|
            0 <= i < bs.len() && bs[i].addr == addr && bs[i].history == h,
    decreases bs.len(),
{
    if bs.len() > 0 && bs[0].addr != addr {
        lemma_find_history_props(bs.drop_first(), addr);
        match find_history(bs, addr) {
            Some(h) => {
                let i = choose|i: int|
                    0 <= i < bs.drop_first().len() && bs.drop_first()[i].addr == addr
                        && bs.drop_first()[i].history == h;
                assert(bs[i + 1].addr == addr && bs[i + 1].history == h);
            },
            None => {
                assert forall|i: int| 0 <= i < bs.len() implies bs[i].addr != addr by {
                    if i > 0 {
                        assert(bs.drop_first()[i - 1] == bs[i]);
                    }
                }
            },
        }
    }
}

proof fn lemma_find_history_update(bs: Seq<BucketView>, i: int, b2: BucketView, addr: Seq<char>)
    requires
        0 <= i < bs.len(),
        bs[i].addr == b2.addr,
        distinct_addrs(bs),
    ensures
        find_history(bs.update(i, b2), addr) == if addr == b2.addr {
            Some(b2.history)
        } else {
            find_history(bs, addr)
        },
    decreases i,
{
    let bs2 = bs.update(i, b2);
    if i == 0 {
        if addr != b2.addr {
            assert(bs2.drop_first() =~= bs.drop_first());
        }
    } else {
        assert(bs2[0] == bs[0]);
        assert(bs2.drop_first() =~= bs.drop_first().update(i - 1, b2));
        lemma_find_history_update(bs.drop_first(), i - 1, b2, addr);
    }
}

proof fn lemma_find_history_push(bs: Seq<BucketView>, b: BucketView, addr: Seq<char>)
    ensures
        find_history(bs.push(b), addr) == match find_history(bs, addr) {
            Some(h) => Some(h),
            None => if b.addr == addr {
                Some(b.history)
            } else {
                None
            },
        },
    decreases bs.len(),
{
    if bs.len() == 0 {
        assert(bs.push(b)[0] == b);
        assert(bs.push(b).drop_first() =~= Seq::<BucketView>::empty());
    } else {
        assert(bs.push(b)[0] == bs[0]);
        assert(bs.push(b).drop_first() =~= bs.drop_first().push(b));
        lemma_find_history_push(bs.drop_first(), b, addr);
    }
}

proof fn lemma_find_metric_skip(h: Seq<MetricsView>, t: u64, i: int)
    requires
        0 <= i <= h.len(),
        forall|j: int| 0 <= j < i ==> (#[trigger] h[j]).timestamp != t,
    ensures
        find_metric(h, t) == find_metric(h.skip(i), t),
    decreases i,
{
    if i > 0 {
        lemma_find_metric_skip(h.drop_first(), t, i - 1);
        assert(h.drop_first().skip(i - 1) =~= h.skip(i));
    } else {
        assert(h.skip(0) =~= h);
    }
}

proof fn lemma_find_metric_props(h: Seq<MetricsView>, t: u64)
    ensures
        find_metric(h, t) is None ==> forall|k: int|
            0 <= k < h.len() ==> (#[trigger] h[k]).timestamp != t,
        find_metric(h, t) matches Some(m) ==> m.timestamp == t && exists|k: int|
            0 <= k < h.len() && h[k] == m,
    decreases h.len(),
{
    if h.len() > 0 && h[0].timestamp != t {
        lemma_find_metric_props(h.drop_first(), t);
        match find_metric(h, t) {
            Some(m) => {
                let k = choose|k: int| 0 <= k < h.drop_first().len() && h.drop_first()[k] == m;
                assert(h[k + 1] == m);
            },
            None => {
                assert forall|k: int| 0 <= k < h.len() implies (#[trigger] h[k]).timestamp
                    != t by {
                    if k > 0 {
                        assert(h.drop_first()[k - 1] == h[k]);
                    }
                }
            },
        }
    }
}

/// With distinct timestamps, the record at index `k` is what lookup of its
/// timestamp finds.
proof fn lemma_find_metric_at(h: Seq<MetricsView>, k: int)
    requires
        sorted_by_timestamp(h),
        0 <= k < h.len(),
    ensures
        find_metric(h, h[k].timestamp) == Some(h[k]),
    decreases k,
{
    if k > 0 {
        lemma_find_metric_at(h.drop_first(), k - 1);
        assert(h.drop_first()[k - 1] == h[k]);
    }
}

proof fn lemma_find_metric_insert(h: Seq<MetricsView>, k: int, m: MetricsView, t: u64)
    requires
        0 <= k <= h.len(),
        forall|j: int| 0 <= j < h.len() ==> (#[trigger] h[j]).timestamp != m.timestamp,
    ensures
        find_metric(h.insert(k, m), t) == if t == m.timestamp {
            Some(m)
        } else {
            find_metric(h, t)
        },
    decreases k,
{
    let h2 = h.insert(k, m);
    if k == 0 {
        assert(h2[0] == m);
        if t != m.timestamp {
            assert(h2.drop_first() =~= h);
        } else {
        }
    } else {
        assert(h2[0] == h[0]);
        assert(h2.drop_first() =~= h.drop_first().insert(k - 1, m));
        lemma_find_metric_insert(h.drop_first(), k - 1, m, t);
        if h[0].timestamp == t && t != m.timestamp {
        }
    }
}

proof fn lemma_find_metric_update(h: Seq<MetricsView>, k: int, m: MetricsView, t: u64)
    requires
        0 <= k < h.len(),
        sorted_by_timestamp(h),
        h[k].timestamp == m.timestamp,
    ensures
        find_metric(h.update(k, m), t) == if t == m.timestamp {
            Some(m)
        } else {
            find_metric(h, t)
        },
    decreases k,
{
    let h2 = h.update(k, m);
    if k == 0 {
        assert(h2[0] == m);
        if t != m.timestamp {
            assert(h2.drop_first() =~= h.drop_first());
        }
    } else {
        assert(h2[0] == h[0]);
        assert(h2.drop_first() =~= h.drop_first().update(k - 1, m));
        lemma_find_metric_update(h.drop_first(), k - 1, m, t);
        if t == m.timestamp {
            assert(h[0].timestamp < h[k].timestamp);
        }
    }
}

proof fn lemma_find_metric_remove(h: Seq<MetricsView>, k: int, t: u64)
    requires
        0 <= k < h.len(),
        sorted_by_timestamp(h),
    ensures
        find_metric(h.remove(k), t) == if t == h[k].timestamp {
            None
        } else {
            find_metric(h, t)
        },
    decreases k,
{
    let h2 = h.remove(k);
    if k == 0 {
        assert(h2 =~= h.drop_first());
        if t == h[0].timestamp {
            lemma_find_metric_props(h.drop_first(), t);
            match find_metric(h.drop_first(), t) {
                Some(m) => {
                    let j = choose|j: int|
                        0 <= j < h.drop_first().len() && h.drop_first()[j] == m;
                    assert(h[j + 1].timestamp == t);
                    assert(false);
                },
                None => {},
            }
        }
    } else {
        assert(h2[0] == h[0]);
        assert(h2.drop_first() =~= h.drop_first().remove(k - 1));
        lemma_find_metric_remove(h.drop_first(), k - 1, t);
        if t == h[k].timestamp {
            assert(h[0].timestamp < h[k].timestamp);
        }
    }
}

/// The time-series store: every metric record the engine has persisted.
pub struct MetricsStore {
    buckets: Vec<Bucket>,
}

impl MetricsStore {
    spec fn buckets_view(&self) -> Seq<BucketView> {
        self.buckets@.map_values(|b: Bucket| b@)
    }

    /// Internal invariant: bucket addresses are unique, and each history is
    /// sorted by timestamp and names its bucket's address in every record.
    pub closed spec fn wf(&self) -> bool {
        &&& distinct_addrs(self.buckets_view())
        &&& forall|i: int| 0 <= i < self.buckets_view().len() ==> history_wf(
            (#[trigger] self.buckets_view()[i]).addr,
            self.buckets_view()[i].history,
        )
    }

    /// All records of one validator, ascending by timestamp.
    pub closed spec fn history_of(&self, addr: Seq<char>) -> Seq<MetricsView> {
        match find_history(self.buckets_view(), addr) {
            Some(h) => h,
            None => Seq::empty(),
        }
    }

    /// The record stored under `(addr, t)`, if any.
    pub closed spec fn spec_load(&self, addr: Seq<char>, t: u64) -> Option<MetricsView> {
        find_metric(self.history_of(addr), t)
    }

    /// Whether a record is stored under `(addr, t)`.
    pub open spec fn contains(&self, addr: Seq<char>, t: u64) -> bool {
        self.spec_load(addr, t) is Some
    }

    /// What a well-formed store guarantees of one validator's history: it is
    /// ascending by timestamp, every record names the validator and is found
    /// by point lookup of its timestamp, and point lookups only return
    /// records of the history.
    pub proof fn lemma_history(&self, addr: Seq<char>)
        requires
            self.wf(),
        ensures
            sorted_by_timestamp_pub(self.history_of(addr)),
            forall|k: int| 0 <= k < self.history_of(addr).len() ==> (#[trigger] self.history_of(
                addr,
            )[k]).operator_addr == addr,
            forall|k: int| 0 <= k < self.history_of(addr).len() ==> self.spec_load(
                addr,
                (#[trigger] self.history_of(addr)[k]).timestamp,
            ) == Some(self.history_of(addr)[k]),
            forall|t: u64| #[trigger] self.spec_load(addr, t) matches Some(m) ==> m.timestamp == t
                && m.operator_addr == addr && self.history_of(addr).contains(m),
    {
        lemma_find_history_props(self.buckets_view(), addr);
        let h = self.history_of(addr);
        assert forall|k: int| 0 <= k < h.len() implies self.spec_load(
            addr,
            (#[trigger] h[k]).timestamp,
        ) == Some(h[k]) by {
            lemma_find_metric_at(h, k);
        }
        assert forall|t: u64| true implies (#[trigger] self.spec_load(addr, t) matches Some(m)
            ==> m.timestamp == t && m.operator_addr == addr && h.contains(m)) by {
            lemma_find_metric_props(h, t);
        }
    }

    /// A validator without any history has no record at any timestamp.
    pub proof fn lemma_empty_history_loads_nothing(&self, addr: Seq<char>)
        requires
            self.history_of(addr).len() == 0,
        ensures
            forall|t: u64| #[trigger] self.spec_load(addr, t) is None,
    {
        assert forall|t: u64| #[trigger] self.spec_load(addr, t) is None by {
            assert(find_metric(self.history_of(addr), t) is None);
        }
    }

    /// An empty store.
    pub fn new() -> (s: MetricsStore)
        ensures
            s.wf(),
            forall|addr: Seq<char>| #[trigger] s.history_of(addr) == Seq::<MetricsView>::empty(),
            forall|addr: Seq<char>, t: u64| !(#[trigger] s.contains(addr, t)),
    {
        let s = MetricsStore { buckets: Vec::new() };
        proof {
            assert(s.buckets_view() =~= Seq::<BucketView>::empty());
        }
        s
    }

    fn bucket_index(&self, addr: &String) -> (r: Option<usize>)
        requires
            self.wf(),
        ensures
            match r {
                Some(i) => i < self.buckets@.len() && self.buckets@[i as int]@.addr == addr@
                    && find_history(self.buckets_view(), addr@) == Some(
                    self.buckets_view()[i as int].history,
                ),
                None => find_history(self.buckets_view(), addr@) is None,
            },
    {
        let ghost bs = self.buckets_view();
        let n = self.buckets.len();
        for i in 0..n
            invariant
                n == self.buckets@.len(),
                bs == self.buckets_view(),
                forall|j: int| 0 <= j < i ==> bs[j].addr != addr@,
        {
            if self.buckets[i].addr.eq(addr) {
                proof {
                    lemma_find_history_skip(bs, addr@, i as int);
                    assert(bs.skip(i as int)[0] == bs[i as int]);
                }
                return Some(i);
            }
        }
        proof {
            lemma_find_history_skip(bs, addr@, n as int);
            assert(bs.skip(n as int) =~= Seq::<BucketView>::empty());
        }
        None
    }

    /// Persists a record under its `(operator address, timestamp)` key,
    /// replacing what that key held before and touching no other key.
    pub fn save(&mut self, m: ValidatorMetrics)
        requires
            old(self).wf(),
        ensures
            final(self).wf(),
            final(self).spec_load(m.operator_addr@, m.timestamp) == Some(m@),
            forall|a: Seq<char>, t: u64|
                !(a == m.operator_addr@ && t == m.timestamp) ==> #[trigger] final(self).spec_load(
                    a,
                    t,
                ) == old(self).spec_load(a, t),
            forall|a: Seq<char>| a != m.operator_addr@ ==> #[trigger] final(self).history_of(a)
                == old(self).history_of(a),
    {
        let ghost bs0 = self.buckets_view();
        let idx = self.bucket_index(&m.operator_addr);
        match idx {
            None => {
                proof {
                    lemma_find_history_props(bs0, m.operator_addr@);
                }
                let mut history: Vec<ValidatorMetrics> = Vec::new();
                let addr = m.operator_addr.clone();
                let ghost mv = m@;
                history.push(m);
                let b = Bucket { addr, history };
                self.buckets.push(b);
                proof {
                    let bv = BucketView {
                        addr: mv.operator_addr,
                        history: seq![mv],
                    };
                    assert(b@.history =~= seq![mv]);
                    assert(b@ == bv);
                    assert(self.buckets_view() =~= bs0.push(bv));
                    assert forall|a: Seq<char>| true implies find_history(
                        self.buckets_view(),
                        a,
                    ) == (if a == mv.operator_addr {
                        Some(seq![mv])
                    } else {
                        find_history(bs0, a)
                    }) by {
                        lemma_find_history_push(bs0, bv, a);
                        if a == mv.operator_addr {
                        }
                    }
                    assert(seq![mv].drop_first() =~= Seq::<MetricsView>::empty());
                    assert(find_metric(seq![mv], mv.timestamp) == Some(mv));
                    assert forall|t: u64| t != mv.timestamp implies find_metric(
                        seq![mv],
                        t,
                    ) is None by {
                        assert(find_metric(Seq::<MetricsView>::empty(), t) is None);
                        assert(find_metric(seq![mv], t) == find_metric(seq![mv].drop_first(), t));
                    }
                }
            },
            Some(i) => {
                let ghost bold = bs0[i as int];
                let mut b = self.buckets.remove(i);
                let ghost h0 = b@.history;
                let n = b.history.len();
                let mut k: usize = 0;
                while k < n && b.history[k].timestamp < m.timestamp
                    invariant
                        n == b.history@.len(),
                        h0 == b@.history,
                        k <= n,
                        forall|j: int| 0 <= j < k ==> (#[trigger] h0[j]).timestamp < m.timestamp,
                    decreases n - k,
                {
                    k = k + 1;
                }
                let ghost mv = m@;
                if k < n && b.history[k].timestamp == m.timestamp {
                    // replace the record at this timestamp
                    b.history.remove(k);
                    b.history.insert(k, m);
                    proof {
                        assert(b@.history =~= h0.update(k as int, mv));
                        assert forall|t: u64| true implies find_metric(
                            b@.history,
                            t,
                        ) == (if t == mv.timestamp {
                            Some(mv)
                        } else {
                            find_metric(h0, t)
                        }) by {
                            lemma_find_metric_update(h0, k as int, mv, t);
                        }
                    }
                } else {
                    proof {
                        assert forall|j: int| 0 <= j < h0.len() implies (#[trigger] h0[j]).timestamp
                            != mv.timestamp by {
                            if j >= k {
                                assert(h0[k as int].timestamp <= h0[j].timestamp);
                            }
                        }
                    }
                    b.history.insert(k, m);
                    proof {
                        assert(b@.history =~= h0.insert(k as int, mv));
                        assert forall|t: u64| true implies find_metric(
                            b@.history,
                            t,
                        ) == (if t == mv.timestamp {
                            Some(mv)
                        } else {
                            find_metric(h0, t)
                        }) by {
                            lemma_find_metric_insert(h0, k as int, mv, t);
                        }
                        assert forall|p: int, q: int|
                            0 <= p < q < b@.history.len() implies b@.history[p].timestamp
                            < b@.history[q].timestamp by {
                            let h2 = h0.insert(k as int, mv);
                            if p == k {
                                assert(h2[q] == h0[q - 1]);
                                assert(h0[q - 1].timestamp >= h0[k as int].timestamp || q - 1 == k);
                            }
                        }
                    }
                }
                let ghost b2v = b@;
                self.buckets.insert(i, b);
                proof {
                    assert(self.buckets_view() =~= bs0.update(i as int, b2v));
                    assert(b2v.addr == mv.operator_addr);
                    assert forall|a: Seq<char>| true implies find_history(
                        self.buckets_view(),
                        a,
                    ) == (if a == mv.operator_addr {
                        Some(b2v.history)
                    } else {
                        find_history(bs0, a)
                    }) by {
                        lemma_find_history_update(bs0, i as int, b2v, a);
                    }
                }
            },
        }
    }

    /// Deletes whatever record the key `(addr, t)` holds; other keys and
    /// other validators' histories are untouched.
    pub fn remove(&mut self, addr: &String, t: u64)
        requires
            old(self).wf(),
        ensures
            final(self).wf(),
            final(self).spec_load(addr@, t) is None,
            forall|a: Seq<char>, t2: u64|
                !(a == addr@ && t2 == t) ==> #[trigger] final(self).spec_load(a, t2) == old(
                    self,
                ).spec_load(a, t2),
            forall|a: Seq<char>| a != addr@ ==> #[trigger] final(self).history_of(a) == old(
                self,
            ).history_of(a),
    {
        let ghost bs0 = self.buckets_view();
        let idx = self.bucket_index(addr);
        match idx {
            None => {
                proof {
                    lemma_find_metric_props(self.history_of(addr@), t);
                }
            },
            Some(i) => {
                let mut b = self.buckets.remove(i);
                let ghost h0 = b@.history;
                let n = b.history.len();
                let mut k: usize = 0;
                let mut found = false;
                while k < n && !found
                    invariant
                        n == b.history@.len(),
                        h0 == b@.history,
                        k <= n,
                        !found ==> forall|j: int| 0 <= j < k ==> (#[trigger] h0[j]).timestamp != t,
                        found ==> k < n && h0[k as int].timestamp == t,
                    decreases n - k + (if found { 0int } else { 1int }),
                {
                    if b.history[k].timestamp == t {
                        found = true;
                    } else {
                        k = k + 1;
                    }
                }
                if found {
                    b.history.remove(k);
                    proof {
                        assert(b@.history =~= h0.remove(k as int));
                        assert forall|t2: u64| true implies find_metric(
                            b@.history,
                            t2,
                        ) == (if t2 == t {
                            None
                        } else {
                            find_metric(h0, t2)
                        }) by {
                            lemma_find_metric_remove(h0, k as int, t2);
                        }
                        assert forall|p: int, q: int|
                            0 <= p < q < b@.history.len() implies b@.history[p].timestamp
                            < b@.history[q].timestamp by {
                            let h2 = h0.remove(k as int);
                            assert(h2[p] == if p < k { h0[p] } else { h0[p + 1] });
                            assert(h2[q] == if q < k { h0[q] } else { h0[q + 1] });
                        }
                    }
                } else {
                    proof {
                        lemma_find_metric_props(h0, t);
                        assert(find_metric(h0, t) is None);
                    }
                }
                let ghost b2v = b@;
                self.buckets.insert(i, b);
                proof {
                    assert(self.buckets_view() =~= bs0.update(i as int, b2v));
                    assert forall|a: Seq<char>| true implies find_history(
                        self.buckets_view(),
                        a,
                    ) == (if a == addr@ {
                        Some(b2v.history)
                    } else {
                        find_history(bs0, a)
                    }) by {
                        lemma_find_history_update(bs0, i as int, b2v, a);
                    }
                }
            },
        }
    }

    /// Point read of the record under `(addr, t)`.
    pub fn may_load(&self, addr: &String, t: u64) -> (r: Option<&ValidatorMetrics>)
        requires
            self.wf(),
        ensures
            match r {
                Some(m) => self.spec_load(addr@, t) == Some(m@),
                None => self.spec_load(addr@, t) is None,
            },
    {
        let idx = self.bucket_index(addr);
        match idx {
            None => None,
            Some(i) => {
                let b = &self.buckets[i];
                let ghost h = b@.history;
                let n = b.history.len();
                for k in 0..n
                    invariant
                        n == b.history@.len(),
                        h == b@.history,
                        h == self.history_of(addr@),
                        forall|j: int| 0 <= j < k ==> (#[trigger] h[j]).timestamp != t,
                {
                    if b.history[k].timestamp == t {
                        proof {
                            lemma_find_metric_skip(h, t, k as int);
                            assert(h.skip(k as int)[0] == h[k as int]);
                        }
                        return Some(&b.history[k]);
                    }
                }
                proof {
                    lemma_find_metric_skip(h, t, n as int);
                    assert(h.skip(n as int) =~= Seq::<MetricsView>::empty());
                }
                None
            },
        }
    }

    /// All records of one validator, ascending by timestamp.
    pub fn all_for_validator(&self, addr: &String) -> (r: Vec<ValidatorMetrics>)
        requires
            self.wf(),
        ensures
            r@.map_values(|m: ValidatorMetrics| m@) == self.history_of(addr@),
    {
        let idx = self.bucket_index(addr);
        let mut r: Vec<ValidatorMetrics> = Vec::new();
        match idx {
            None => {
                proof {
                    assert(r@.map_values(|m: ValidatorMetrics| m@) =~= self.history_of(addr@));
                }
                r
            },
            Some(i) => {
                let b = &self.buckets[i];
                let ghost h = b@.history;
                let n = b.history.len();
                for k in 0..n
                    invariant
                        n == b.history@.len(),
                        h == b@.history,
                        h == self.history_of(addr@),
                        r@.len() == k,
                        forall|j: int| 0 <= j < k ==> r@[j]@ == h[j],
                {
                    r.push(b.history[k].duplicate());
                }
                proof {
                    assert(r@.map_values(|m: ValidatorMetrics| m@) =~= self.history_of(addr@));
                }
                r
            },
        }
    }

    /// The most recent record of one validator, if it has any.
    pub fn latest_for_validator(&self, addr: &String) -> (r: Option<&ValidatorMetrics>)
        requires
            self.wf(),
        ensures
            match r {
                Some(m) => self.history_of(addr@).len() > 0 && m@ == self.history_of(addr@).last(),
                None => self.history_of(addr@).len() == 0,
            },
    {
        let idx = self.bucket_index(addr);
        match idx {
            None => None,
            Some(i) => {
                let b = &self.buckets[i];
                if b.history.len() == 0 {
                    None
                } else {
                    Some(&b.history[b.history.len() - 1])
                }
            },
        }
    }

    /// The records of one validator whose timestamps lie in the inclusive
    /// interval `[t1, t2]`, ascending by timestamp.
    pub fn for_validator_between(&self, addr: &String, t1: u64, t2: u64) -> (r: Vec<
        ValidatorMetrics,
    >)
        requires
            self.wf(),
        ensures
            r@.map_values(|m: ValidatorMetrics| m@) == self.history_of(addr@).filter(
                |m: MetricsView| t1 <= m.timestamp <= t2,
            ),
    {
        let ghost pred = |m: MetricsView| t1 <= m.timestamp <= t2;
        let idx = self.bucket_index(addr);
        let mut r: Vec<ValidatorMetrics> = Vec::new();
        match idx {
            None => {
                proof {
                    reveal(Seq::filter);
                    assert(r@.map_values(|m: ValidatorMetrics| m@) =~= self.history_of(
                        addr@,
                    ).filter(pred));
                }
                r
            },
            Some(i) => {
                let b = &self.buckets[i];
                let ghost h = b@.history;
                let n = b.history.len();
                proof {
                    reveal(Seq::filter);
                    assert(h.take(0) =~= Seq::<MetricsView>::empty());
                    assert(r@.map_values(|m: ValidatorMetrics| m@) =~= h.take(0).filter(pred));
                }
                for k in 0..n
                    invariant
                        n == b.history@.len(),
                        h == b@.history,
                        h == self.history_of(addr@),
                        forall|m: MetricsView| #[trigger] pred(m) == (t1 <= m.timestamp <= t2),
                        r@.map_values(|m: ValidatorMetrics| m@) == h.take(k as int).filter(pred),
                {
                    let keep = t1 <= b.history[k].timestamp && b.history[k].timestamp <= t2;
                    let ghost r_before = r@;
                    if keep {
                        r.push(b.history[k].duplicate());
                    }
                    proof {
                        reveal(Seq::filter);
                        let taken = h.take(k + 1);
                        assert(taken.drop_last() =~= h.take(k as int));
                        assert(taken.last() == h[k as int]);
                        assert(h[k as int] == b.history@[k as int]@);
                        assert(keep == pred(h[k as int]));
                        if keep {
                            assert(r@.map_values(|m: ValidatorMetrics| m@) =~= r_before.map_values(
                                |m: ValidatorMetrics| m@,
                            ).push(h[k as int]));
                            assert(taken.filter(pred) == taken.drop_last().filter(pred).push(
                                taken.last(),
                            ));
                        } else {
                            assert(taken.filter(pred) == taken.drop_last().filter(pred));
                        }
                    }
                }
                proof {
                    assert(h.take(n as int) =~= h);
                }
                r
            },
        }
    }
}

/// With distinct bucket addresses, the bucket at a position is what lookup
/// of its address finds.
proof fn lemma_find_history_at(bs: Seq<BucketView>, i: int)
    requires
        distinct_addrs(bs),
        0 <= i < bs.len(),
    ensures
        find_history(bs, bs[i].addr) == Some(bs[i].history),
    decreases i,
{
    if i > 0 {
        assert forall|p: int, q: int|
            0 <= p < q < bs.drop_first().len() implies bs.drop_first()[p].addr
            != bs.drop_first()[q].addr by {
            assert(bs.drop_first()[p] == bs[p + 1] && bs.drop_first()[q] == bs[q + 1]);
        }
        lemma_find_history_at(bs.drop_first(), i - 1);
        assert(bs.drop_first()[i - 1] == bs[i]);
    }
}

/// Whether some entry of `r` is the record `x`.

pub open spec fn contains_record(r: Seq<ValidatorMetrics>, x: MetricsView) -> bool {
    exists|j: int| 0 <= j < r.len() && (#[trigger] r[j])@ == x
}

proof fn lemma_record_kept_by_extension(r1: Seq<ValidatorMetrics>, r2: Seq<ValidatorMetrics>, x: MetricsView)
    requires
        contains_record(r1, x),
        r1.len() <= r2.len(),
        forall|j: int| 0 <= j < r1.len() ==> r2[j] == r1[j],
    ensures
        contains_record(r2, x),
{
    let j = choose|j: int| 0 <= j < r1.len() && (#[trigger] r1[j])@ == x;
    assert(r2[j]@ == x);
}

impl MetricsStore {
    /// Every record the store holds, one entry per key; what a persistence
    /// shell writes out.
    pub fn all_records(&self) -> (r: Vec<ValidatorMetrics>)
        requires
            self.wf(),
        ensures
            forall|j: int| 0 <= j < r@.len() ==> self.spec_load(
                (#[trigger] r@[j])@.operator_addr,
                r@[j]@.timestamp,
            ) == Some(r@[j]@),
            forall|a: Seq<char>, t: u64|
                (#[trigger] self.spec_load(a, t)) matches Some(m) ==> contains_record(r@, m),
    {
        let ghost bs = self.buckets_view();
        let mut r: Vec<ValidatorMetrics> = Vec::new();
        let n = self.buckets.len();
        for i in 0..n
            invariant
                n == self.buckets@.len(),
                bs == self.buckets_view(),
                self.wf(),
                forall|j: int| 0 <= j < r@.len() ==> self.spec_load(
                    (#[trigger] r@[j])@.operator_addr,
                    r@[j]@.timestamp,
                ) == Some(r@[j]@),
                forall|bi: int, k: int|
                    0 <= bi < i && 0 <= k < bs[bi].history.len() ==> contains_record(
                        r@,
                        #[trigger] bs[bi].history[k],
                    ),
        {
            let b = &self.buckets[i];
            proof {
                assert(b@ == bs[i as int]);
                lemma_find_history_at(bs, i as int);
            }
            let m = b.history.len();
            for k in 0..m
                invariant
                    n == self.buckets@.len(),
                    bs == self.buckets_view(),
                    self.wf(),
                    i < n,
                    b@ == bs[i as int],
                    m == b.history@.len(),
                    find_history(bs, bs[i as int].addr) == Some(bs[i as int].history),
                    forall|j: int| 0 <= j < r@.len() ==> self.spec_load(
                        (#[trigger] r@[j])@.operator_addr,
                        r@[j]@.timestamp,
                    ) == Some(r@[j]@),
                    forall|bi: int, k2: int|
                        0 <= bi < i && 0 <= k2 < bs[bi].history.len() ==> contains_record(
                            r@,
                            #[trigger] bs[bi].history[k2],
                        ),
                    forall|k2: int|
                        0 <= k2 < k ==> contains_record(r@, #[trigger] bs[i as int].history[k2]),
            {
                proof {
                    assert(b.history@[k as int]@ == bs[i as int].history[k as int]);
                    lemma_find_metric_at(bs[i as int].history, k as int);
                }
                let ghost r_before = r@;
                r.push(b.history[k].duplicate());
                proof {
                    assert(r@[r@.len() - 1]@ == bs[i as int].history[k as int]);
                    assert(contains_record(r@, bs[i as int].history[k as int]));
                    assert forall|bi: int, k2: int|
                        0 <= bi < i && 0 <= k2 < bs[bi].history.len() implies contains_record(
                        r@,
                        #[trigger] bs[bi].history[k2],
                    ) by {
                        lemma_record_kept_by_extension(r_before, r@, bs[bi].history[k2]);
                    }
                    assert forall|k2: int| 0 <= k2 <= k implies contains_record(
                        r@,
                        #[trigger] bs[i as int].history[k2],
                    ) by {
                        if k2 < k {
                            lemma_record_kept_by_extension(r_before, r@, bs[i as int].history[k2]);
                        }
                    }
                }
            }
        }
        proof {
            assert forall|a: Seq<char>, t: u64| true implies ((#[trigger] self.spec_load(
                a,
                t,
            )) matches Some(m) ==> contains_record(r@, m)) by {
                lemma_find_history_props(bs, a);
                match find_history(bs, a) {
                    Some(h) => {
                        let bi = choose|bi: int|
                            0 <= bi < bs.len() && bs[bi].addr == a && bs[bi].history == h;
                        lemma_find_metric_props(h, t);
                        match self.spec_load(a, t) {
                            Some(m) => {
                                let k = choose|k: int| 0 <= k < h.len() && h[k] == m;
                                assert(bs[bi].history[k] == m);
                                assert(contains_record(r@, m));
                            },
                            None => {},
                        }
                    },
                    None => {},
                }
            }
        }
        r
    }
}

/// Public face of history ordering, used in `lemma_history`'s contract.
pub open spec fn sorted_by_timestamp_pub(h: Seq<MetricsView>) -> bool {
    forall|i: int, j: int| 0 <= i < j < h.len() ==> h[i].timestamp < h[j].timestamp
}

} // verus!
