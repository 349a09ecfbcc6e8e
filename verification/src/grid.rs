use vstd::prelude::*;

verus! {

/// One grid line of the coordinate index: the sorted set of orthogonal
/// coordinates present at a given key coordinate.
pub struct AxisEntry {
    pub key: i32,
    pub vals: Vec<i32>,
}

/// A coordinate index: a mapping from one axis value to the sorted set of
/// orthogonal-axis values present among the points sharing that coordinate.
pub struct GridAxis {
    pub entries: Vec<AxisEntry>,
}

pub open spec fn sorted_strict(s: Seq<i32>) -> bool {
    forall|i: int, j: int| 0 <= i < j < s.len() ==> s[i] < s[j]
}

impl GridAxis {
    /// Keys are unique; each grid line is non-empty and strictly sorted.
    pub open spec fn wf(self) -> bool {
        &&& forall|i: int, j: int|
            0 <= i < j < self.entries@.len() ==> (#[trigger] self.entries@[i]).key != (
            #[trigger] self.entries@[j]).key
        &&& forall|i: int|
            0 <= i < self.entries@.len() ==> (#[trigger] self.entries@[i]).vals@.len() >= 1
        &&& forall|i: int|
            0 <= i < self.entries@.len() ==> sorted_strict((#[trigger] self.entries@[i]).vals@)
    }

    pub open spec fn has_key(self, k: i32) -> bool {
        exists|i: int| 0 <= i < self.entries@.len() && (#[trigger] self.entries@[i]).key == k
    }

    pub open spec fn key_index(self, k: i32) -> int {
        choose|i: int| 0 <= i < self.entries@.len() && (#[trigger] self.entries@[i]).key == k
    }

    /// The grid line stored at key `k` (meaningful when `has_key(k)`).
    pub open spec fn vals_at(self, k: i32) -> Seq<i32> {
        self.entries@[self.key_index(k)].vals@
    }

    pub open spec fn contains_pair(self, k: i32, v: i32) -> bool {
        self.has_key(k) && self.vals_at(k).contains(v)
    }

    /// With unique keys, any entry holding `k` is the entry `vals_at` reads.
    pub proof fn lemma_key_index_unique(self, k: i32, i: int)
        requires
            self.wf(),
            0 <= i < self.entries@.len(),
            self.entries@[i].key == k,
        ensures
            self.key_index(k) == i,
    {
        assert(self.has_key(k));
        let j = self.key_index(k);
        if j != i {
            if i < j {
                assert(self.entries@[i].key != self.entries@[j].key);
            } else {
                assert(self.entries@[j].key != self.entries@[i].key);
            }
        }
    }

    fn find_key(&self, k: i32) -> (r: Option<usize>)
        ensures
            match r {
                Some(i) => i < self.entries@.len() && self.entries@[i as int].key == k,
                None => !self.has_key(k),
            },
    {
        let mut i: usize = 0;
        while i < self.entries.len()
            invariant
                0 <= i <= self.entries@.len(),
                forall|i2: int| 0 <= i2 < i ==> (#[trigger] self.entries@[i2]).key != k,
            decreases self.entries@.len() - i,
        {
            if self.entries[i].key == k {
                return Some(i);
            }
            i += 1;
        }
        None
    }

    /// Look up the grid line at key `k`.
    pub fn lookup(&self, k: i32) -> (r: Option<&Vec<i32>>)
        requires
            self.wf(),
        ensures
            match r {
                Some(v) => self.has_key(k) && v@ == self.vals_at(k),
                None => !self.has_key(k),
            },
    {
        match self.find_key(k) {
            Some(i) => {
                proof {
                    self.lemma_key_index_unique(k, i as int);
                }
                Some(&self.entries[i].vals)
            },
            None => None,
        }
    }
}

/// Insert `v` into a strictly sorted vector, keeping it sorted and ignoring
/// a value already present.
fn sorted_insert(vals: &mut Vec<i32>, v: i32)
    requires
        sorted_strict(old(vals)@),
    ensures
        sorted_strict(final(vals)@),
        forall|v2: i32| #[trigger] final(vals)@.contains(v2) <==> (old(vals)@.contains(v2) || v2
            == v),
        final(vals)@.len() >= 1,
        final(vals)@.len() >= old(vals)@.len(),
{
    let ghost pre = vals@;
    let mut p: usize = 0;
    while p < vals.len() && vals[p] < v
        invariant
            0 <= p <= vals@.len(),
            vals@ == pre,
            forall|i: int| 0 <= i < p ==> pre[i] < v,
        decreases vals@.len() - p,
    {
        p += 1;
    }
    if p < vals.len() && vals[p] == v {
        proof {
            assert(pre.contains(v));
        }
        return ;
    }
    vals.insert(p, v);
    proof {
        assert forall|i: int, j: int| 0 <= i < j < vals@.len() implies vals@[i] < vals@[j] by {
            if j < p {
                assert(vals@[i] == pre[i] && vals@[j] == pre[j]);
            } else if i > p {
                assert(vals@[i] == pre[i - 1] && vals@[j] == pre[j - 1]);
            } else if j == p {
                assert(vals@[i] == pre[i] && vals@[j] == v);
            } else if i == p {
                assert(vals@[i] == v && vals@[j] == pre[j - 1]);
                assert(pre[j - 1] >= pre[p as int] > v || pre[j - 1] == pre[p as int]);
            } else {
                assert(vals@[i] == pre[i] && vals@[j] == pre[j - 1]);
            }
        }
        assert forall|v2: i32| #[trigger] vals@.contains(v2) implies (pre.contains(v2) || v2
            == v) by {
            let t = choose|t: int| 0 <= t < vals@.len() && vals@[t] == v2;
            if t < p {
                assert(pre[t] == v2);
            } else if t > p {
                assert(pre[t - 1] == v2);
            }
        }
        assert forall|v2: i32| pre.contains(v2) || v2 == v implies #[trigger] vals@.contains(
            v2,
        ) by {
            if v2 == v {
                assert(vals@[p as int] == v2);
            } else {
                let t = choose|t: int| 0 <= t < pre.len() && pre[t] == v2;
                if t < p {
                    assert(vals@[t] == v2);
                } else {
                    assert(vals@[t + 1] == v2);
                }
            }
        }
    }
}

/// Build the index of a list of (key, value) coordinate pairs: afterwards it
/// holds exactly the pairs of the list, each grid line sorted and duplicate
/// free.
pub fn build_axis(pairs: &Vec<(i32, i32)>) -> (r: GridAxis)
    ensures
        r.wf(),
        forall|k: i32, v: i32| #[trigger] r.contains_pair(k, v) <==> pairs@.contains((k, v)),
{
    let mut axis = GridAxis { entries: Vec::new() };
    let mut i: usize = 0;
    while i < pairs.len()
        invariant
            0 <= i <= pairs@.len(),
            axis.wf(),
            forall|j: int| 0 <= j < i ==> axis.has_key((#[trigger] pairs@[j]).0),
            forall|k: i32, v: i32| #[trigger] axis.contains_pair(k, v) <==> (pairs@.contains(
                (k, v),
            ) && exists|j: int| 0 <= j < i && (#[trigger] pairs@[j]).0 == k),
        decreases pairs@.len() - i,
    {
        let k = pairs[i].0;
        match axis.find_key(k) {
            Some(e) => {
                proof {
                    axis.lemma_key_index_unique(k, e as int);
                    let v0 = axis.entries@[e as int].vals@[0];
                    assert(axis.vals_at(k)[0] == v0);
                    assert(axis.contains_pair(k, v0));
                    assert(exists|j: int| 0 <= j < i && (#[trigger] pairs@[j]).0 == k);
                    assert forall|k2: i32, v2: i32|
                        pairs@.contains((k2, v2)) && exists|t: int|
                            0 <= t < i + 1 && (#[trigger] pairs@[t]).0 == k2 implies
                        #[trigger] axis.contains_pair(k2, v2) by {
                        let t = choose|t: int| 0 <= t < i + 1 && (#[trigger] pairs@[t]).0 == k2;
                        if t == i {
                            assert(k2 == k);
                            assert(exists|t2: int|
                                0 <= t2 < i && (#[trigger] pairs@[t2]).0 == k2);
                        }
                    }
                }
            },
            None => {
                let ghost pre_axis = axis;
                let mut vals: Vec<i32> = Vec::new();
                let mut j: usize = 0;
                while j < pairs.len()
                    invariant
                        0 <= j <= pairs@.len(),
                        sorted_strict(vals@),
                        forall|v2: i32| #[trigger] vals@.contains(v2) <==> exists|t: int|
                            0 <= t < j && pairs@[t] == (k, v2),
                    decreases pairs@.len() - j,
                {
                    if pairs[j].0 == k {
                        sorted_insert(&mut vals, pairs[j].1);
                        proof {
                            assert(pairs@[j as int] == (k, pairs@[j as int].1));
                        }
                    }
                    j += 1;
                }
                proof {
                    assert(pairs@[i as int] == (k, pairs@[i as int].1));
                    assert(vals@.contains(pairs@[i as int].1));
                }
                let ghost pre_entries = axis.entries@;
                axis.entries.push(AxisEntry { key: k, vals });
                proof {
                    let n = axis.entries@.len() - 1;
                    assert(axis.entries@[n].key == k);
                    assert(forall|t: int|
                        0 <= t < n ==> axis.entries@[t] == pre_entries[t]);
                    assert forall|k2: i32| #[trigger] axis.has_key(k2) implies (
                    pre_axis.has_key(k2) || k2 == k) by {
                        let t = choose|t: int|
                            0 <= t < axis.entries@.len() && (#[trigger] axis.entries@[t]).key
                                == k2;
                        if t < n {
                            assert(pre_axis.entries@[t].key == k2);
                        }
                    }
                    assert forall|k2: i32| pre_axis.has_key(k2) implies #[trigger] axis.has_key(
                        k2,
                    ) by {
                        let t = choose|t: int|
                            0 <= t < pre_axis.entries@.len() && (
                            #[trigger] pre_axis.entries@[t]).key == k2;
                        assert(axis.entries@[t].key == k2);
                    }
                    assert(!pre_axis.has_key(k));
                    assert forall|k2: i32, v2: i32| #[trigger] axis.contains_pair(k2, v2) implies
                        (pairs@.contains((k2, v2)) && exists|t: int|
                        0 <= t < i + 1 && (#[trigger] pairs@[t]).0 == k2) by {
                        if k2 == k {
                            axis.lemma_key_index_unique(k2, n);
                            assert(vals@.contains(v2));
                            let t = choose|t: int| 0 <= t < pairs@.len() && pairs@[t] == (k, v2);
                            assert(pairs@[t].0 == k2);
                        } else {
                            assert(pre_axis.has_key(k2));
                            let t = choose|t: int|
                                0 <= t < pre_axis.entries@.len() && (
                                #[trigger] pre_axis.entries@[t]).key == k2;
                            pre_axis.lemma_key_index_unique(k2, t);
                            axis.lemma_key_index_unique(k2, t);
                            assert(axis.vals_at(k2) == pre_axis.vals_at(k2));
                            assert(pre_axis.contains_pair(k2, v2));
                        }
                    }
                    assert forall|k2: i32, v2: i32|
                        pairs@.contains((k2, v2)) && exists|t: int|
                            0 <= t < i + 1 && (#[trigger] pairs@[t]).0 == k2 implies
                        #[trigger] axis.contains_pair(k2, v2) by {
                        if k2 == k {
                            axis.lemma_key_index_unique(k2, n);
                            let t = choose|t: int| 0 <= t < pairs@.len() && pairs@[t] == (k2, v2);
                            assert(pairs@[t] == (k, v2));
                            assert(vals@.contains(v2));
                            assert(axis.vals_at(k2).contains(v2));
                        } else {
                            let t = choose|t: int|
                                0 <= t < i + 1 && (#[trigger] pairs@[t]).0 == k2;
                            assert(t < i);
                            assert(pre_axis.contains_pair(k2, v2));
                            let e = choose|e: int|
                                0 <= e < pre_axis.entries@.len() && (
                                #[trigger] pre_axis.entries@[e]).key == k2;
                            pre_axis.lemma_key_index_unique(k2, e);
                            axis.lemma_key_index_unique(k2, e);
                            assert(axis.vals_at(k2) == pre_axis.vals_at(k2));
                        }
                    }
                }
            },
        }
        i += 1;
    }
    proof {
        assert forall|k: i32, v: i32| pairs@.contains((k, v)) implies #[trigger] axis.contains_pair(
            k,
            v,
        ) by {
            let t = choose|t: int| 0 <= t < pairs@.len() && pairs@[t] == (k, v);
            assert(pairs@[t].0 == k);
        }
    }
    axis
}

} // verus!
