//! Edits that wait to be committed.

use vstd::prelude::*;

verus! {

/// The edits that wait to be committed to a bank: for each sample one at
/// most, kept in the order of the samples, which is the order in which
/// they are to be committed.
pub struct PendingReplacements<T> {
    entries: Vec<(usize, T)>,
}

/// Whether the indices of `entries` go up from entry to entry.
pub open spec fn ascending<T>(entries: Seq<(usize, T)>) -> bool {
    forall|i: int, j: int| 0 <= i < j < entries.len() ==> entries[i].0 < entries[j].0
}

/// What `entries` holds for each sample index.
pub open spec fn as_map<T>(entries: Seq<(usize, T)>) -> Map<usize, T> {
    Map::new(
        |k: usize| exists|i: int| 0 <= i < entries.len() && (#[trigger] entries[i]).0 == k,
        |k: usize| entries[choose|i: int| 0 <= i < entries.len() && (#[trigger] entries[i]).0 == k].1,
    )
}

/// With indices that go up, an index stands at one place only.
pub proof fn lemma_as_map_at<T>(entries: Seq<(usize, T)>, i: int)
    requires
        ascending(entries),
        0 <= i < entries.len(),
    ensures
        as_map(entries).contains_key(entries[i].0),
        as_map(entries)[entries[i].0] == entries[i].1,
{
    let k = entries[i].0;
    let j = choose|j: int| 0 <= j < entries.len() && (#[trigger] entries[j]).0 == k;
    assert(j == i) by {
        if j < i {
            assert(entries[j].0 < entries[i].0);
        } else if i < j {
            assert(entries[i].0 < entries[j].0);
        }
    }
}

impl<T> PendingReplacements<T> {
    /// The edits in the order in which they are to be committed.
    pub closed spec fn order(&self) -> Seq<(usize, T)> {
        self.entries@
    }

    /// The invariant: the sample indices go up, so that none occurs twice.
    pub closed spec fn wf(&self) -> bool {
        ascending(self.entries@)
    }

    /// No edits.
    pub fn new() -> (r: Self)
        ensures
            r.wf(),
            r.order() == Seq::<(usize, T)>::empty(),
    {
        PendingReplacements { entries: Vec::new() }
    }

    /// How many edits wait.
    pub fn len(&self) -> (r: usize)
        ensures
            r == self.order().len(),
    {
        self.entries.len()
    }

    /// Whether no edit waits.
    pub fn is_empty(&self) -> (r: bool)
        ensures
            r == (self.order().len() == 0),
    {
        self.entries.len() == 0
    }

    /// The place of the first edit whose sample index is `index` or higher.
    fn place(&self, index: usize) -> (r: usize)
        requires
            self.wf(),
        ensures
            r <= self.order().len(),
            forall|i: int| 0 <= i < r ==> (#[trigger] self.order()[i]).0 < index,
            forall|i: int| r <= i < self.order().len() ==> (#[trigger] self.order()[i]).0 >= index,
    {
        let n: usize = self.entries.len();
        let mut i: usize = 0;
        while i < n && self.entries[i].0 < index
            invariant
                i <= n,
                n == self.entries@.len(),
                forall|k: int| 0 <= k < i ==> (#[trigger] self.entries@[k]).0 < index,
            decreases n - i,
        {
            i = i + 1;
        }
        proof {
            assert forall|k: int| i <= k < n implies (#[trigger] self.entries@[k]).0 >= index by {
                if k > i {
                    assert(self.entries@[i as int].0 < self.entries@[k].0);
                }
            }
        }
        i
    }

    /// Whether an edit waits for sample `index`.
    pub fn contains(&self, index: usize) -> (r: bool)
        requires
            self.wf(),
        ensures
            r == as_map(self.order()).contains_key(index),
    {
        let at: usize = self.place(index);
        let r = at < self.entries.len() && self.entries[at].0 == index;
        proof {
            if r {
                lemma_as_map_at(self.entries@, at as int);
            }
        }
        r
    }

    /// The edit that waits for sample `index`.
    pub fn get(&self, index: usize) -> (r: Option<&T>)
        requires
            self.wf(),
        ensures
            match r {
                Some(item) => as_map(self.order()).contains_key(index) && *item == as_map(
                    self.order(),
                )[index],
                None => !as_map(self.order()).contains_key(index),
            },
    {
        let at: usize = self.place(index);
        if at < self.entries.len() && self.entries[at].0 == index {
            proof {
                lemma_as_map_at(self.entries@, at as int);
            }
            Some(&self.entries[at].1)
        } else {
            None
        }
    }

    /// Lets `item` wait for sample `index`, in the place of an edit that
    /// waited for it before.
    pub fn set(&mut self, index: usize, item: T)
        requires
            old(self).wf(),
        ensures
            final(self).wf(),
            as_map(final(self).order()) == as_map(old(self).order()).insert(index, item),
            final(self).order().len() == (if as_map(old(self).order()).contains_key(index) {
                old(self).order().len()
            } else {
                old(self).order().len() + 1
            }),
    {
        let at: usize = self.place(index);
        let ghost before = self.entries@;
        let present = at < self.entries.len() && self.entries[at].0 == index;
        if present {
            self.entries.remove(at);
        }
        let ghost without = self.entries@;
        self.entries.insert(at, (index, item));
        proof {
            let after = self.entries@;
            assert(after == without.insert(at as int, (index, item)));
            assert(forall|i: int| 0 <= i < at ==> without[i] == before[i]);
            assert forall|i: int| at <= i < without.len() implies (#[trigger] without[i]).0
                > index by {
                if present {
                    assert(without[i] == before[i + 1]);
                    assert(before[at as int].0 < before[i + 1].0);
                } else {
                    assert(without[i] == before[i]);
                }
            }
            assert forall|i: int, j: int| 0 <= i < j < after.len() implies after[i].0
                < after[j].0 by {
                if j < at {
                    assert(before[i].0 < before[j].0);
                } else if i > at {
                    assert(without[i - 1].0 < without[j - 1].0) by {
                        if present {
                            assert(before[i].0 < before[j].0);
                        } else {
                            assert(before[i - 1].0 < before[j - 1].0);
                        }
                    }
                } else if i == at {
                    assert(without[j - 1].0 > index);
                } else if j == at {
                    assert(before[i].0 < index);
                } else {
                    assert(before[i].0 < index);
                    assert(without[j - 1].0 > index);
                }
            }
            let m0 = as_map(before);
            let m1 = as_map(after);
            assert forall|k: usize| m1.contains_key(k) <==> (k == index || m0.contains_key(
                k,
            )) by {
                if m1.contains_key(k) {
                    let i = choose|i: int| 0 <= i < after.len() && (#[trigger] after[i]).0 == k;
                    if i < at {
                        assert(before[i].0 == k);
                    } else if i > at {
                        if present {
                            assert(before[i].0 == k);
                        } else {
                            assert(before[i - 1].0 == k);
                        }
                    }
                }
                if k == index {
                    assert(after[at as int].0 == k);
                } else if m0.contains_key(k) {
                    let i = choose|i: int| 0 <= i < before.len() && (#[trigger] before[i]).0 == k;
                    if i < at {
                        assert(after[i].0 == k);
                    } else if present {
                        assert(after[i].0 == k);
                    } else {
                        assert(after[i + 1].0 == k);
                    }
                }
            }
            assert forall|k: usize| m1.contains_key(k) implies m1[k] == m0.insert(
                index,
                item,
            )[k] by {
                let i = choose|i: int| 0 <= i < after.len() && (#[trigger] after[i]).0 == k;
                lemma_as_map_at(after, i);
                if i < at {
                    lemma_as_map_at(before, i);
                } else if i > at {
                    if present {
                        lemma_as_map_at(before, i);
                    } else {
                        lemma_as_map_at(before, i - 1);
                    }
                }
            }
            assert(m1 =~= m0.insert(index, item));
            if present {
                lemma_as_map_at(before, at as int);
            } else {
                if m0.contains_key(index) {
                    let i = choose|i: int| 0 <= i < before.len() && (#[trigger] before[i]).0
                        == index;
                    if i < at {
                        assert(before[i].0 < index);
                    }
                }
            }
        }
    }

    /// The edits in the order in which they are to be committed.
    pub fn as_slice(&self) -> (r: &[(usize, T)])
        ensures
            r@ == self.order(),
    {
        self.entries.as_slice()
    }

    /// Takes the edits out, in the order in which they are to be
    /// committed: by sample index, the lowest first.
    pub fn take_all(&mut self) -> (r: Vec<(usize, T)>)
        requires
            old(self).wf(),
        ensures
            final(self).wf(),
            final(self).order() == Seq::<(usize, T)>::empty(),
            r@ == old(self).order(),
            ascending(r@),
    {
        let mut out: Vec<(usize, T)> = Vec::new();
        std::mem::swap(&mut out, &mut self.entries);
        out
    }
}

} // verus!
