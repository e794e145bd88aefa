//! Sets of class names, kept in the order of names so that two sets holding
//! the same names are stored, walked and rendered alike.

use vstd::prelude::*;
use crate::text::{compare, lemma_precedes_asymmetric, lemma_precedes_transitive, precedes, Order};

verus! {

/// Each name of the sequence precedes all that follow it.
pub open spec fn increasing(names: Seq<Seq<char>>) -> bool {
    forall|i: int, j: int| 0 <= i < j < names.len() ==> precedes(names[i], names[j])
}

/// A finite set of class names.
#[derive(Debug)]
pub struct ClassSet {
    names: Vec<String>,
}

impl View for ClassSet {
    type V = Set<Seq<char>>;

    open spec fn view(&self) -> Set<Seq<char>> {
        self.names().to_set()
    }
}

/// An increasing sequence holds no name twice, so it is as long as the set
/// of its names is large.
pub proof fn lemma_increasing_len(names: Seq<Seq<char>>)
    requires
        increasing(names),
    ensures
        names.no_duplicates(),
        names.to_set().finite(),
        names.to_set().len() == names.len(),
{
    assert forall|i: int, j: int| 0 <= i < names.len() && 0 <= j < names.len() && i != j implies names[i]
        != names[j] by {
        if i < j {
            lemma_precedes_asymmetric(names[i], names[j]);
        } else {
            lemma_precedes_asymmetric(names[j], names[i]);
        }
    }
    names.unique_seq_to_set();
    vstd::seq_lib::seq_to_set_is_finite(names);
}

/// Two increasing sequences of the same names are the same sequence.
pub proof fn lemma_increasing_unique(a: Seq<Seq<char>>, b: Seq<Seq<char>>)
    requires
        increasing(a),
        increasing(b),
        a.to_set() == b.to_set(),
    ensures
        a == b,
    decreases a.len(),
{
    lemma_increasing_len(a);
    lemma_increasing_len(b);
    if a.len() == 0 {
        assert(a =~= b);
    } else {
        assert(a.to_set().contains(a[0]));
        assert(b.to_set().contains(b[0]));
        let j = choose|j: int| 0 <= j < b.len() && b[j] == a[0];
        let i = choose|i: int| 0 <= i < a.len() && a[i] == b[0];
        if i > 0 {
            if j > 0 {
                lemma_precedes_transitive(a[0], a[i], b[j]);
            }
            lemma_precedes_asymmetric(a[0], a[i]);
        }
        assert(a[0] == b[0]);
        let ta = a.drop_first();
        let tb = b.drop_first();
        assert forall|x: Seq<char>| ta.to_set().contains(x) <==> tb.to_set().contains(x) by {
            if ta.to_set().contains(x) {
                let k = choose|k: int| 0 <= k < ta.len() && ta[k] == x;
                assert(a[k + 1] == x);
                lemma_precedes_asymmetric(a[0], a[k + 1]);
                assert(b.to_set().contains(x));
                let m = choose|m: int| 0 <= m < b.len() && b[m] == x;
                assert(tb[m - 1] == x);
            }
            if tb.to_set().contains(x) {
                let k = choose|k: int| 0 <= k < tb.len() && tb[k] == x;
                assert(b[k + 1] == x);
                lemma_precedes_asymmetric(b[0], b[k + 1]);
                assert(a.to_set().contains(x));
                let m = choose|m: int| 0 <= m < a.len() && a[m] == x;
                assert(ta[m - 1] == x);
            }
        }
        assert(ta.to_set() =~= tb.to_set());
        assert(increasing(ta)) by {
            assert forall|p: int, q: int| 0 <= p < q < ta.len() implies precedes(ta[p], ta[q]) by {
                assert(ta[p] == a[p + 1] && ta[q] == a[q + 1]);
            }
        }
        assert(increasing(tb)) by {
            assert forall|p: int, q: int| 0 <= p < q < tb.len() implies precedes(tb[p], tb[q]) by {
                assert(tb[p] == b[p + 1] && tb[q] == b[q + 1]);
            }
        }
        lemma_increasing_unique(ta, tb);
        assert(a =~= seq![a[0]] + ta);
        assert(b =~= seq![b[0]] + tb);
    }
}

/// The names of a finite set, in the order of names.
pub open spec fn in_order(names: Set<Seq<char>>) -> Seq<Seq<char>> {
    choose|s: Seq<Seq<char>>| increasing(s) && s.to_set() == names
}

/// The one increasing sequence of the names of a set is `in_order` of it.
pub proof fn lemma_in_order(names: Seq<Seq<char>>)
    requires
        increasing(names),
    ensures
        in_order(names.to_set()) == names,
{
    let s = in_order(names.to_set());
    assert(increasing(s) && s.to_set() == names.to_set());
    lemma_increasing_unique(s, names);
}

impl ClassSet {
    /// The names of the set, in the order of names.
    pub closed spec fn names(&self) -> Seq<Seq<char>> {
        self.names@.map_values(|s: String| s@)
    }

    /// The names are stored in increasing order, each once.
    pub open spec fn wf(&self) -> bool {
        increasing(self.names())
    }

    /// The empty set.
    pub fn new() -> (set: ClassSet)
        ensures
            set.wf(),
            set.names() == Seq::<Seq<char>>::empty(),
            set@ == Set::<Seq<char>>::empty(),
    {
        let set = ClassSet { names: Vec::new() };
        assert(set.names() =~= Seq::<Seq<char>>::empty());
        assert(set@ =~= Set::<Seq<char>>::empty());
        set
    }

    /// A set stores its names in the order of names.
    pub proof fn lemma_names_in_order(&self)
        requires
            self.wf(),
        ensures
            self.names() == in_order(self@),
            self@.finite(),
            self@.len() == self.names().len(),
    {
        lemma_in_order(self.names());
        lemma_increasing_len(self.names());
    }

    /// The number of names in the set.
    pub fn len(&self) -> (n: usize)
        ensures
            n == self.names().len(),
            self.wf() ==> n == self@.len(),
    {
        proof {
            if self.wf() {
                lemma_increasing_len(self.names());
            }
        }
        self.names.len()
    }

    /// Whether the set holds no name.
    pub fn is_empty(&self) -> (empty: bool)
        ensures
            empty == (self.names().len() == 0),
            empty == (self@ == Set::<Seq<char>>::empty()),
    {
        proof {
            if self.names().len() == 0 {
                assert(self@ =~= Set::<Seq<char>>::empty());
            } else {
                assert(self@.contains(self.names()[0]));
            }
        }
        self.names.len() == 0
    }

    /// The name at place `i` in the order of names.
    pub fn get(&self, i: usize) -> (name: &str)
        requires
            i < self.names().len(),
        ensures
            name@ == self.names()[i as int],
            self@.contains(name@),
    {
        self.names[i].as_str()
    }

    /// The place of `name` in the order: where it stands, or where it would.
    fn search(&self, name: &str) -> (at: (usize, bool))
        requires
            self.wf(),
        ensures
            at.0 <= self.names().len(),
            forall|j: int| 0 <= j < at.0 ==> precedes(self.names()[j], name@),
            at.1 ==> at.0 < self.names().len() && self.names()[at.0 as int] == name@,
            !at.1 ==> forall|j: int| at.0 <= j < self.names().len() ==> precedes(name@, self.names()[j]),
            at.1 == self@.contains(name@),
    {
        let mut lo: usize = 0;
        let mut hi: usize = self.names.len();
        while lo < hi
            invariant
                self.wf(),
                lo <= hi <= self.names().len(),
                forall|j: int| 0 <= j < lo ==> precedes(self.names()[j], name@),
                forall|j: int| hi <= j < self.names().len() ==> precedes(name@, self.names()[j]),
            decreases hi - lo,
        {
            let mid: usize = lo + (hi - lo) / 2;
            assert(self.names()[mid as int] == self.names@[mid as int]@);
            match compare(self.names[mid].as_str(), name) {
                Order::Before => {
                    proof {
                        assert forall|j: int| 0 <= j < mid + 1 implies precedes(self.names()[j], name@) by {
                            if j < mid {
                                lemma_precedes_transitive(self.names()[j], self.names()[mid as int], name@);
                            }
                        }
                    }
                    lo = mid + 1;
                },
                Order::Same => {
                    assert(self.names().contains(name@));
                    return (mid, true);
                },
                Order::After => {
                    proof {
                        assert forall|j: int| mid <= j < self.names().len() implies precedes(
                            name@,
                            self.names()[j],
                        ) by {
                            if mid < j {
                                lemma_precedes_transitive(name@, self.names()[mid as int], self.names()[j]);
                            }
                        }
                    }
                    hi = mid;
                },
            }
        }
        proof {
            if self@.contains(name@) {
                let k = choose|k: int| 0 <= k < self.names().len() && self.names()[k] == name@;
                if k < lo {
                    lemma_precedes_asymmetric(self.names()[k], name@);
                } else {
                    lemma_precedes_asymmetric(name@, self.names()[k]);
                }
            }
        }
        (lo, false)
    }

    /// Whether `name` is in the set.
    pub fn contains(&self, name: &str) -> (found: bool)
        requires
            self.wf(),
        ensures
            found == self@.contains(name@),
    {
        self.search(name).1
    }

    /// Adds `name` to the set; says whether it was new.
    pub fn insert(&mut self, name: &str) -> (added: bool)
        requires
            old(self).wf(),
        ensures
            final(self).wf(),
            final(self)@ == old(self)@.insert(name@),
            added == !old(self)@.contains(name@),
    {
        let (at, found) = self.search(name);
        if found {
            assert(self@ =~= self@.insert(name@));
            return false;
        }
        let ghost before = self.names();
        self.names.insert(at, name.to_owned());
        proof {
            let after = self.names();
            assert(after =~= before.insert(at as int, name@));
            assert forall|i: int, j: int| 0 <= i < j < after.len() implies precedes(after[i], after[j]) by {
                if j < at {
                    assert(after[i] == before[i] && after[j] == before[j]);
                } else if j == at {
                    assert(after[i] == before[i]);
                } else if i < at {
                    assert(after[i] == before[i] && after[j] == before[j - 1]);
                } else if i == at {
                    assert(after[j] == before[j - 1]);
                } else {
                    assert(after[i] == before[i - 1] && after[j] == before[j - 1]);
                }
            }
            assert forall|x: Seq<char>| after.to_set().contains(x) <==> before.to_set().insert(name@).contains(
                x,
            ) by {
                if after.to_set().contains(x) {
                    let k = choose|k: int| 0 <= k < after.len() && after[k] == x;
                    if k < at {
                        assert(before[k] == x);
                    } else if k > at {
                        assert(before[k - 1] == x);
                    }
                }
                if before.to_set().contains(x) {
                    let k = choose|k: int| 0 <= k < before.len() && before[k] == x;
                    if k < at {
                        assert(after[k] == x);
                    } else {
                        assert(after[k + 1] == x);
                    }
                }
                if x == name@ {
                    assert(after[at as int] == x);
                }
            }
            assert(after.to_set() =~= before.to_set().insert(name@));
        }
        true
    }

    /// Takes `name` out of the set; says whether it was there.
    pub fn remove(&mut self, name: &str) -> (removed: bool)
        requires
            old(self).wf(),
        ensures
            final(self).wf(),
            final(self)@ == old(self)@.remove(name@),
            removed == old(self)@.contains(name@),
    {
        let (at, found) = self.search(name);
        if !found {
            assert(self@ =~= self@.remove(name@));
            return false;
        }
        let ghost before = self.names();
        self.names.remove(at);
        proof {
            let after = self.names();
            assert(after =~= before.remove(at as int));
            lemma_increasing_len(before);
            assert forall|i: int, j: int| 0 <= i < j < after.len() implies precedes(after[i], after[j]) by {
                let p = if i < at { i } else { i + 1 };
                let q = if j < at { j } else { j + 1 };
                assert(after[i] == before[p] && after[j] == before[q]);
            }
            assert forall|x: Seq<char>| after.to_set().contains(x) <==> before.to_set().remove(name@).contains(
                x,
            ) by {
                if after.to_set().contains(x) {
                    let k = choose|k: int| 0 <= k < after.len() && after[k] == x;
                    let p = if k < at { k } else { k + 1 };
                    assert(before[p] == x);
                    assert(p != at);
                }
                if before.to_set().contains(x) && x != name@ {
                    let k = choose|k: int| 0 <= k < before.len() && before[k] == x;
                    if k < at {
                        assert(after[k] == x);
                    } else {
                        assert(after[k - 1] == x);
                    }
                }
            }
            assert(after.to_set() =~= before.to_set().remove(name@));
        }
        true
    }

    /// The names of the set as strings, in the order of names.
    pub fn to_vec(&self) -> (names: Vec<String>)
        ensures
            names@.map_values(|s: String| s@) == self.names(),
    {
        let mut names: Vec<String> = Vec::new();
        let mut i: usize = 0;
        while i < self.names.len()
            invariant
                i <= self.names.len(),
                names@.len() == i,
                forall|j: int| 0 <= j < i ==> names@[j]@ == self.names@[j]@,
            decreases self.names.len() - i,
        {
            names.push(self.names[i].clone());
            i += 1;
        }
        assert(names@.map_values(|s: String| s@) =~= self.names());
        names
    }
}

impl Clone for ClassSet {
    fn clone(&self) -> (copy: ClassSet)
        ensures
            copy.names() == self.names(),
            copy@ == self@,
            self.wf() ==> copy.wf(),
    {
        ClassSet { names: self.to_vec() }
    }
}

} // verus!
