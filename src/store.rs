//! The metric store: the latest sample for every process identity seen.
//!
//! Entries are only ever inserted or overwritten; nothing is removed.

use vstd::prelude::*;

verus! {

/// Who a sample belongs to: the process id, the executable name and the
/// full command line. Two processes with equal triples share one entry.
#[derive(Clone, Debug, PartialEq, Eq, Hash)]
pub struct ProcessIdentity {
    pub pid: u32,
    pub process_name: String,
    pub cmdline: String,
}

pub type IdentityView = (u32, Seq<char>, Seq<char>);

impl View for ProcessIdentity {
    type V = IdentityView;

    open spec fn view(&self) -> IdentityView {
        (self.pid, self.process_name@, self.cmdline@)
    }
}

impl ProcessIdentity {
    pub fn new(pid: u32, process_name: String, cmdline: String) -> (r: ProcessIdentity)
        ensures
            r@ == (pid, process_name@, cmdline@),
    {
        ProcessIdentity { pid, process_name, cmdline }
    }

    /// Whether `self` and `other` name the same identity.
    pub fn same_as(&self, other: &ProcessIdentity) -> (r: bool)
        ensures
            r == (self@ == other@),
    {
        self.pid == other.pid && self.process_name == other.process_name
            && self.cmdline == other.cmdline
    }

    /// A copy of the identity.
    pub fn duplicate(&self) -> (r: ProcessIdentity)
        ensures
            r@ == self@,
    {
        ProcessIdentity {
            pid: self.pid,
            process_name: self.process_name.clone(),
            cmdline: self.cmdline.clone(),
        }
    }
}

/// The latest cumulative CPU seconds and watt-hours of one identity.
#[derive(Clone, Copy, Debug, PartialEq, Eq, Hash, Default)]
pub struct MetricSample {
    pub cpu_seconds: u64,
    pub energy_wh: u64,
}

/// One identity and its sample.
#[derive(Clone, Debug, PartialEq, Eq)]
pub struct StoreEntry {
    pub identity: ProcessIdentity,
    pub sample: MetricSample,
}

impl StoreEntry {
    /// A copy of the entry.
    pub fn duplicate(&self) -> (r: StoreEntry)
        ensures
            r.identity@ == self.identity@,
            r.sample == self.sample,
    {
        StoreEntry { identity: self.identity.duplicate(), sample: self.sample }
    }
}

/// No identity occurs twice in `s`.
pub open spec fn unique_identities(s: Seq<StoreEntry>) -> bool {
    forall|i: int, j: int|
        0 <= i < s.len() && 0 <= j < s.len() && i != j ==> #[trigger] s[i].identity@
            != #[trigger] s[j].identity@
}

/// The mapping that the entries `s` hold, from identity to sample.
pub open spec fn entries_map(s: Seq<StoreEntry>) -> Map<IdentityView, MetricSample> {
    Map::new(
        |k: IdentityView| exists|i: int| 0 <= i < s.len() && s[i].identity@ == k,
        |k: IdentityView| s[choose|i: int| 0 <= i < s.len() && s[i].identity@ == k].sample,
    )
}

proof fn lemma_entries_map_at(s: Seq<StoreEntry>, i: int)
    requires
        unique_identities(s),
        0 <= i < s.len(),
    ensures
        entries_map(s).contains_key(s[i].identity@),
        entries_map(s)[s[i].identity@] == s[i].sample,
{
    let k = s[i].identity@;
    assert(entries_map(s).dom().contains(k));
    let j = choose|j: int| 0 <= j < s.len() && s[j].identity@ == k;
    assert(j == i);
}

/// Setting entry `i` of `before` to `k` and `sample` (where `k` is already
/// there), or appending it at `i == before.len()` (where `k` is new), keeps
/// the identities unique and sets `k` to `sample` in the mapping.
proof fn lemma_set_entry(
    before: Seq<StoreEntry>,
    after: Seq<StoreEntry>,
    i: int,
    k: IdentityView,
    sample: MetricSample,
)
    requires
        unique_identities(before),
        0 <= i <= before.len(),
        after.len() == (if i == before.len() { before.len() + 1 } else { before.len() }),
        i < before.len() ==> before[i].identity@ == k,
        i == before.len() ==> !entries_map(before).contains_key(k),
        after[i].identity@ == k,
        after[i].sample == sample,
        forall|j: int| 0 <= j < before.len() && j != i ==> after[j] == before[j],
    ensures
        unique_identities(after),
        entries_map(after) == entries_map(before).insert(k, sample),
{
    assert forall|a: int, b: int|
        0 <= a < after.len() && 0 <= b < after.len() && a != b implies
        #[trigger] after[a].identity@ != #[trigger] after[b].identity@ by {
        if a != i && b != i {
            assert(before[a].identity@ != before[b].identity@);
        } else {
            let o = if a == i { b } else { a };
            if i < before.len() {
                assert(before[i].identity@ != before[o].identity@);
            } else {
                lemma_entries_map_at(before, o);
            }
        }
    }
    lemma_entries_map_at(after, i);
    assert forall|q: IdentityView| #[trigger] entries_map(after).contains_key(q)
        == entries_map(before).insert(k, sample).contains_key(q) by {
        if entries_map(after).contains_key(q) {
            let j = choose|j: int| 0 <= j < after.len() && after[j].identity@ == q;
            assert(j == i || before[j].identity@ == q);
        }
        if entries_map(before).contains_key(q) {
            let j = choose|j: int| 0 <= j < before.len() && before[j].identity@ == q;
            assert(j == i || after[j].identity@ == q);
        }
    }
    assert forall|q: IdentityView| #[trigger] entries_map(after).contains_key(q) && q != k
        implies entries_map(after)[q] == entries_map(before)[q] by {
        let j = choose|j: int| 0 <= j < after.len() && after[j].identity@ == q;
        lemma_entries_map_at(after, j);
        lemma_entries_map_at(before, j);
    }
    assert(entries_map(after) =~= entries_map(before).insert(k, sample));
}

/// The store: a mapping from identity to its latest sample.
pub struct Store {
    entries: Vec<StoreEntry>,
}

impl View for Store {
    type V = Map<IdentityView, MetricSample>;

    closed spec fn view(&self) -> Map<IdentityView, MetricSample> {
        entries_map(self.entries@)
    }
}

impl Store {
    pub closed spec fn wf(&self) -> bool {
        unique_identities(self.entries@)
    }

    /// An empty store.
    pub fn new() -> (r: Store)
        ensures
            r.wf(),
            r@ == Map::<IdentityView, MetricSample>::empty(),
    {
        let r = Store { entries: Vec::new() };
        assert(r@ =~= Map::<IdentityView, MetricSample>::empty());
        r
    }

    fn find(&self, identity: &ProcessIdentity) -> (r: Option<usize>)
        requires
            self.wf(),
        ensures
            r matches Some(i) ==> i < self.entries@.len() && self.entries@[i as int].identity@
                == identity@,
            r is None ==> !self@.contains_key(identity@),
    {
        let mut i: usize = 0;
        while i < self.entries.len()
            invariant
                i <= self.entries@.len(),
                forall|j: int| 0 <= j < i ==> self.entries@[j].identity@ != identity@,
            decreases self.entries@.len() - i,
        {
            if self.entries[i].identity.same_as(identity) {
                return Some(i);
            }
            i = i + 1;
        }
        None
    }

    /// The sample stored for `identity`, if it was ever seen.
    pub fn get(&self, identity: &ProcessIdentity) -> (r: Option<MetricSample>)
        requires
            self.wf(),
        ensures
            r == (if self@.contains_key(identity@) {
                Some(self@[identity@])
            } else {
                None
            }),
    {
        match self.find(identity) {
            Some(i) => {
                proof {
                    lemma_entries_map_at(self.entries@, i as int);
                }
                Some(self.entries[i].sample)
            },
            None => None,
        }
    }

    /// Whether the store holds no entry.
    pub fn is_empty(&self) -> (r: bool)
        requires
            self.wf(),
        ensures
            r == (self@.dom() == Set::<IdentityView>::empty()),
    {
        proof {
            if self.entries@.len() > 0 {
                lemma_entries_map_at(self.entries@, 0);
            }
        }
        let r = self.entries.len() == 0;
        assert(r ==> self@.dom() =~= Set::<IdentityView>::empty());
        r
    }

    /// Sets the sample of `identity` to `sample`, adding the identity where it
    /// is new. The value replaces what was stored; nothing is added up.
    pub fn upsert(&mut self, identity: ProcessIdentity, sample: MetricSample)
        requires
            old(self).wf(),
        ensures
            final(self).wf(),
            final(self)@ == old(self)@.insert(identity@, sample),
    {
        let ghost before = self.entries@;
        match self.find(&identity) {
            Some(i) => {
                let ghost k = identity@;
                self.entries.set(i, StoreEntry { identity, sample });
                proof {
                    lemma_set_entry(before, self.entries@, i as int, k, sample);
                }
            },
            None => {
                let ghost k = identity@;
                self.entries.push(StoreEntry { identity, sample });
                proof {
                    lemma_set_entry(before, self.entries@, before.len() as int, k, sample);
                }
            },
        }
    }

    /// A copy of the whole store for export. The store is not changed.
    pub fn snapshot(&self) -> (r: Vec<StoreEntry>)
        requires
            self.wf(),
        ensures
            unique_identities(r@),
            entries_map(r@) == self@,
    {
        let mut r: Vec<StoreEntry> = Vec::new();
        let mut i: usize = 0;
        while i < self.entries.len()
            invariant
                i <= self.entries@.len(),
                r@.len() == i,
                forall|j: int| 0 <= j < i ==> (#[trigger] r@[j]).identity@
                    == self.entries@[j].identity@ && r@[j].sample == self.entries@[j].sample,
            decreases self.entries@.len() - i,
        {
            r.push(self.entries[i].duplicate());
            i = i + 1;
        }
        proof {
            let s = self.entries@;
            assert forall|a: int, b: int|
                0 <= a < r@.len() && 0 <= b < r@.len() && a != b implies
                #[trigger] r@[a].identity@ != #[trigger] r@[b].identity@ by {
                assert(s[a].identity@ != s[b].identity@);
            }
            assert forall|q: IdentityView| #[trigger] entries_map(r@).contains_key(q)
                == entries_map(s).contains_key(q) by {
                if entries_map(r@).contains_key(q) {
                    let j = choose|j: int| 0 <= j < r@.len() && r@[j].identity@ == q;
                    assert(s[j].identity@ == q);
                }
                if entries_map(s).contains_key(q) {
                    let j = choose|j: int| 0 <= j < s.len() && s[j].identity@ == q;
                    assert(r@[j].identity@ == q);
                }
            }
            assert forall|q: IdentityView| #[trigger] entries_map(r@).contains_key(q)
                implies entries_map(r@)[q] == entries_map(s)[q] by {
                let j = choose|j: int| 0 <= j < r@.len() && r@[j].identity@ == q;
                lemma_entries_map_at(r@, j);
                lemma_entries_map_at(s, j);
            }
            assert(entries_map(r@) =~= entries_map(s));
        }
        r
    }
}

} // verus!
