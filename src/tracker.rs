use vstd::prelude::*;

verus! {

/// The identifiers of `s` strictly increase from one record to the next.
pub open spec fn ids_increasing(s: Seq<(usize, u64)>) -> bool {
    forall|i: int, j: int| 0 <= i < j < s.len() ==> #[trigger] s[i].0 < #[trigger] s[j].0
}

/// The moment, in ticks, at which each webview was last rendered.
///
/// The records are kept sorted by identifier, one record per webview, so that
/// walking them visits the webviews in increasing identifier order.
pub struct FrameTracker {
    records: Vec<(usize, u64)>,
    stamps: Ghost<Map<usize, u64>>,
}

impl View for FrameTracker {
    type V = Map<usize, u64>;

    /// Maps each tracked webview to the tick of its latest render.
    closed spec fn view(&self) -> Map<usize, u64> {
        self.stamps@
    }
}

impl FrameTracker {
    /// The records, in the order in which they are walked.
    pub closed spec fn records(&self) -> Seq<(usize, u64)> {
        self.records@
    }

    /// The records are sorted by identifier and hold exactly the map of the view.
    pub open spec fn wf(&self) -> bool {
        &&& ids_increasing(self.records())
        &&& self@.dom().finite()
        &&& self@.dom().len() == self.records().len()
        &&& forall|i: int|
            0 <= i < self.records().len() ==> {
                &&& self@.contains_key(#[trigger] self.records()[i].0)
                &&& self@[self.records()[i].0] == self.records()[i].1
            }
        &&& forall|k: usize|
            #[trigger] self@.contains_key(k) ==> exists|i: int|
                0 <= i < self.records().len() && #[trigger] self.records()[i].0 == k
    }

    /// A tracker in which no webview has been rendered yet.
    pub fn new() -> (r: FrameTracker)
        ensures
            r.wf(),
            r@ == Map::<usize, u64>::empty(),
            r.records().len() == 0,
    {
        FrameTracker { records: Vec::new(), stamps: Ghost(Map::empty()) }
    }

    /// Number of tracked webviews.
    pub fn len(&self) -> (r: usize)
        ensures
            r == self.records().len(),
    {
        self.records.len()
    }

    /// Whether no webview is tracked.
    pub fn is_empty(&self) -> (r: bool)
        ensures
            r == (self.records().len() == 0),
    {
        self.records.len() == 0
    }

    /// The record at position `i` of the walk: an identifier and its last render.
    pub fn record_at(&self, i: usize) -> (r: (usize, u64))
        requires
            i < self.records().len(),
        ensures
            r == self.records()[i as int],
    {
        self.records[i]
    }

    /// The tick at which webview `id` was last rendered, if it ever was.
    pub fn last_render(&self, id: usize) -> (r: Option<u64>)
        requires
            self.wf(),
        ensures
            r == (if self@.contains_key(id) {
                Some(self@[id])
            } else {
                None::<u64>
            }),
    {
        let n = self.records.len();
        let mut i: usize = 0;
        while i < n
            invariant
                self.wf(),
                n == self.records().len(),
                i <= n,
                forall|j: int| 0 <= j < i ==> #[trigger] self.records()[j].0 != id,
            decreases n - i,
        {
            if self.records[i].0 == id {
                assert(self@.contains_key(self.records()[i as int].0));
                return Some(self.records[i].1);
            }
            i += 1;
        }
        None
    }

    /// Notes that webview `id` was rendered at tick `at`, replacing any
    /// earlier record of it.
    pub fn record_render(&mut self, id: usize, at: u64)
        requires
            old(self).wf(),
        ensures
            final(self).wf(),
            final(self)@ == old(self)@.insert(id, at),
    {
        let n = self.records.len();
        let mut i: usize = 0;
        while i < n && self.records[i].0 < id
            invariant
                n == self.records().len(),
                i <= n,
                forall|j: int| 0 <= j < i ==> #[trigger] self.records()[j].0 < id,
            decreases n - i,
        {
            i += 1;
        }
        let ghost before = self.records();
        let ghost stamps = self@;
        if i < n && self.records[i].0 == id {
            assert(stamps.contains_key(before[i as int].0));
            assert(stamps.insert(id, at).dom() =~= stamps.dom());
            self.records.set(i, (id, at));
            self.stamps = Ghost(stamps.insert(id, at));
            assert forall|k: usize| #[trigger] self@.contains_key(k) implies exists|j: int|
                0 <= j < self.records().len() && #[trigger] self.records()[j].0 == k by {
                if k != id {
                    let j = choose|j: int| 0 <= j < before.len() && #[trigger] before[j].0 == k;
                    assert(self.records()[j].0 == k);
                } else {
                    assert(self.records()[i as int].0 == k);
                }
            }
        } else {
            proof {
                assert forall|j: int| i <= j < n implies #[trigger] before[j].0 > id by {
                    if j > i {
                        assert(before[i as int].0 < before[j].0);
                    }
                }
            }
            assert(!stamps.contains_key(id)) by {
                if stamps.contains_key(id) {
                    let j = choose|j: int| 0 <= j < before.len() && #[trigger] before[j].0 == id;
                    if j < i {
                        assert(before[j].0 < id);
                    } else {
                        assert(before[j].0 > id);
                    }
                }
            }
            assert(stamps.insert(id, at).dom() =~= stamps.dom().insert(id));
            self.records.insert(i, (id, at));
            self.stamps = Ghost(stamps.insert(id, at));
            let ghost after = self.records();
            assert(forall|j: int| 0 <= j < i ==> after[j] == before[j]);
            assert(forall|j: int| i < j < after.len() ==> after[j] == before[j - 1]);
            assert forall|j: int| 0 <= j < after.len() implies {
                &&& self@.contains_key(#[trigger] after[j].0)
                &&& self@[after[j].0] == after[j].1
            } by {
                if j < i {
                    assert(before[j].0 != id);
                } else if j > i {
                    assert(before[j - 1].0 != id);
                }
            }
            assert forall|k: usize| #[trigger] self@.contains_key(k) implies exists|j: int|
                0 <= j < after.len() && #[trigger] after[j].0 == k by {
                if k != id {
                    let j = choose|j: int| 0 <= j < before.len() && #[trigger] before[j].0 == k;
                    if j < i {
                        assert(after[j].0 == k);
                    } else {
                        assert(after[j + 1].0 == k);
                    }
                } else {
                    assert(after[i as int].0 == k);
                }
            }
        }
    }

    /// Forgets every record.
    pub fn clear(&mut self)
        ensures
            final(self).wf(),
            final(self)@ == Map::<usize, u64>::empty(),
            final(self).records().len() == 0,
    {
        self.records.clear();
        self.stamps = Ghost(Map::empty());
    }
}

} // verus!
