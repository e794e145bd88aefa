//! The class registry: which class names each tracked file references, how
//! many files reference each name, and which names are in use at all.

use vstd::prelude::*;
use vstd::hash_map::StringHashMap;
use vstd::set_lib::*;
use crate::class_set::{increasing, lemma_increasing_len, ClassSet};

verus! {

/// The tracked files: each path with the class names its file references.
pub type Files = Map<Seq<char>, Set<Seq<char>>>;

/// The class names of `path`; none when the path is not tracked.
pub open spec fn classes_of(files: Files, path: Seq<char>) -> Set<Seq<char>> {
    if files.contains_key(path) {
        files[path]
    } else {
        Set::empty()
    }
}

/// The tracked paths whose files reference `name`.
pub open spec fn referencing(files: Files, name: Seq<char>) -> Set<Seq<char>> {
    Set::new(|path: Seq<char>| files.contains_key(path) && files[path].contains(name))
}

/// The number of tracked files that reference `name`.
pub open spec fn ref_count(files: Files, name: Seq<char>) -> nat {
    referencing(files, name).len()
}

/// The names that at least one tracked file references.
pub open spec fn active_names(files: Files) -> Set<Seq<char>> {
    Set::new(|name: Seq<char>| exists|path: Seq<char>| referencing(files, name).contains(path))
}

/// What an update reports: names added to and removed from the file, and
/// names that entered and left the active set.
pub open spec fn update_deltas(files: Files, path: Seq<char>, classes: Set<Seq<char>>) -> (
    nat,
    nat,
    nat,
    nat,
) {
    let next = files.insert(path, classes);
    (
        classes.difference(classes_of(files, path)).len(),
        classes_of(files, path).difference(classes).len(),
        active_names(next).difference(active_names(files)).len(),
        active_names(files).difference(active_names(next)).len(),
    )
}

/// The counts and the active set are those that `files` gives.
pub open spec fn tallied(files: Files, counts: Map<Seq<char>, usize>, active: Set<Seq<char>>) -> bool {
    &&& active == counts.dom()
    &&& forall|name: Seq<char>| #[trigger]
        counts.contains_key(name) <==> referencing(files, name).len() > 0
    &&& forall|name: Seq<char>| #[trigger]
        counts.contains_key(name) ==> counts[name] == referencing(files, name).len()
}

/// The files that reference a name are among the tracked ones.
pub proof fn lemma_referencing_bounded(files: Files, name: Seq<char>)
    requires
        files.dom().finite(),
    ensures
        referencing(files, name).finite(),
        ref_count(files, name) <= files.dom().len(),
        ref_count(files, name) > 0 <==> active_names(files).contains(name),
{
    assert(referencing(files, name).subset_of(files.dom()));
    lemma_len_subset(referencing(files, name), files.dom());
    if ref_count(files, name) > 0 {
        let path = referencing(files, name).choose();
        assert(referencing(files, name).contains(path));
    }
    if active_names(files).contains(name) {
        let path = choose|path: Seq<char>| referencing(files, name).contains(path);
        assert(referencing(files, name).contains(path));
    }
}

/// Changing the class names of one file by one name moves the count of that
/// name by one and leaves every other count alone.
proof fn lemma_one_name(files: Files, path: Seq<char>, classes: Set<Seq<char>>, name: Seq<char>)
    requires
        files.dom().finite(),
        !classes.contains(name),
    ensures
        referencing(files.insert(path, classes.insert(name)), name) == referencing(
            files.insert(path, classes),
            name,
        ).insert(path),
        !referencing(files.insert(path, classes), name).contains(path),
        ref_count(files.insert(path, classes.insert(name)), name) == ref_count(
            files.insert(path, classes),
            name,
        ) + 1,
        forall|other: Seq<char>|
            other != name ==> #[trigger] referencing(files.insert(path, classes.insert(name)), other)
                == referencing(files.insert(path, classes), other),
{
    let less = files.insert(path, classes);
    let more = files.insert(path, classes.insert(name));
    assert(referencing(more, name) =~= referencing(less, name).insert(path));
    assert(less.dom() =~= files.dom().insert(path));
    lemma_referencing_bounded(less, name);
    assert forall|other: Seq<char>| other != name implies #[trigger] referencing(more, other)
        == referencing(less, other) by {
        assert(referencing(more, other) =~= referencing(less, other));
    }
}

/// A file that references nothing changes no count, tracked or not.
proof fn lemma_empty_file(files: Files, path: Seq<char>)
    requires
        !files.contains_key(path) || files[path] == Set::<Seq<char>>::empty(),
    ensures
        forall|name: Seq<char>| #[trigger]
            referencing(files.insert(path, Set::empty()), name) == referencing(files.remove(path), name),
        forall|name: Seq<char>| #[trigger] referencing(files, name) == referencing(files.remove(path), name),
        active_names(files.insert(path, Set::empty())) == active_names(files.remove(path)),
        active_names(files) == active_names(files.remove(path)),
{
    assert forall|name: Seq<char>| #[trigger]
        referencing(files.insert(path, Set::empty()), name) == referencing(files.remove(path), name) by {
        assert(referencing(files.insert(path, Set::empty()), name) =~= referencing(files.remove(path), name));
    }
    assert forall|name: Seq<char>| #[trigger] referencing(files, name) == referencing(files.remove(path), name) by {
        assert(referencing(files, name) =~= referencing(files.remove(path), name));
    }
    assert forall|name: Seq<char>|
        active_names(files.insert(path, Set::empty())).contains(name) <==> active_names(
            files.remove(path),
        ).contains(name) by {
        assert(referencing(files.insert(path, Set::empty()), name) == referencing(files.remove(path), name));
    }
    assert forall|name: Seq<char>|
        active_names(files).contains(name) <==> active_names(files.remove(path)).contains(name) by {
        assert(referencing(files, name) == referencing(files.remove(path), name));
    }
    assert(active_names(files.insert(path, Set::empty())) =~= active_names(files.remove(path)));
    assert(active_names(files) =~= active_names(files.remove(path)));
}

/// The names among the first `i` of `names`.
pub open spec fn seen(names: Seq<Seq<char>>, i: int) -> Set<Seq<char>> {
    names.take(i).to_set()
}

proof fn lemma_seen_step(names: Seq<Seq<char>>, i: int)
    requires
        increasing(names),
        0 <= i < names.len(),
    ensures
        seen(names, i + 1) == seen(names, i).insert(names[i]),
        !seen(names, i).contains(names[i]),
        seen(names, i).finite(),
        seen(names, i).subset_of(names.to_set()),
{
    lemma_increasing_len(names);
    let a = names.take(i);
    let b = names.take(i + 1);
    assert forall|x: Seq<char>| seen(names, i + 1).contains(x) <==> seen(names, i).insert(names[i]).contains(
        x,
    ) by {
        if b.contains(x) {
            let k = choose|k: int| 0 <= k < b.len() && b[k] == x;
            if k < i {
                assert(a[k] == x);
            }
        }
        if a.contains(x) {
            let k = choose|k: int| 0 <= k < a.len() && a[k] == x;
            assert(b[k] == x);
        }
        if x == names[i] {
            assert(b[i] == x);
        }
    }
    assert(seen(names, i + 1) =~= seen(names, i).insert(names[i]));
    if a.contains(names[i]) {
        let k = choose|k: int| 0 <= k < a.len() && a[k] == names[i];
        assert(names[k] == names[i]);
    }
    assert forall|x: Seq<char>| seen(names, i).contains(x) implies names.to_set().contains(x) by {
        let k = choose|k: int| 0 <= k < a.len() && a[k] == x;
        assert(names[k] == x);
    }
}

/// The registry of class names.
pub struct Registry {
    files: StringHashMap<ClassSet>,
    counts: StringHashMap<usize>,
    active: ClassSet,
}

impl View for Registry {
    type V = Files;

    /// The tracked paths, each with the class names of its file.
    closed spec fn view(&self) -> Files {
        Map::new(|path: Seq<char>| self.files@.contains_key(path), |path: Seq<char>| self.files@[path]@)
    }
}

impl Registry {
    /// The count the registry keeps for `name`; 0 where it keeps none.
    pub closed spec fn count_of(&self, name: Seq<char>) -> nat {
        if self.counts@.contains_key(name) {
            self.counts@[name] as nat
        } else {
            0
        }
    }

    /// The set of names the registry keeps as active.
    pub closed spec fn active_view(&self) -> Set<Seq<char>> {
        self.active@
    }

    /// The registry's invariant: the tracked files are finitely many, and
    /// the counts and the active set are those that the files give.
    pub closed spec fn wf(&self) -> bool {
        &&& self.files@.dom().finite()
        &&& forall|path: Seq<char>| self.files@.contains_key(path) ==> (#[trigger] self.files@[path]).wf()
        &&& self.active.wf()
        &&& tallied(self@, self.counts@, self.active@)
    }

    /// For every name the kept count is the number of tracked files that
    /// reference it, and the name is active exactly when that count is
    /// positive.
    pub proof fn lemma_counts_match_files(&self, name: Seq<char>)
        requires
            self.wf(),
        ensures
            self@.dom().finite(),
            self.count_of(name) == referencing(self@, name).len(),
            self.active_view().contains(name) <==> self.count_of(name) > 0,
            self.active_view() == active_names(self@),
    {
        assert(self@.dom() =~= self.files@.dom());
        assert forall|n: Seq<char>| self.active@.contains(n) <==> active_names(self@).contains(n) by {
            lemma_referencing_bounded(self@, n);
        }
        assert(self.active@ =~= active_names(self@));
    }

    /// A registry that tracks no file.
    pub fn new() -> (registry: Registry)
        ensures
            registry.wf(),
            registry@ == Map::<Seq<char>, Set<Seq<char>>>::empty(),
    {
        let registry = Registry {
            files: StringHashMap::new(),
            counts: StringHashMap::new(),
            active: ClassSet::new(),
        };
        proof {
            assert(registry@ =~= Map::<Seq<char>, Set<Seq<char>>>::empty());
            assert forall|name: Seq<char>| referencing(registry@, name).len() == 0 by {
                assert(referencing(registry@, name) =~= Set::<Seq<char>>::empty());
            }
            assert(registry.counts@.dom() =~= registry.active@);
        }
        registry
    }

    /// Whether `path` is tracked.
    pub fn is_tracked(&self, path: &str) -> (tracked_path: bool)
        ensures
            tracked_path == self@.contains_key(path@),
    {
        self.files.contains_key(path)
    }

    /// The class names of a tracked file.
    pub fn classes(&self, path: &str) -> (classes: Option<&ClassSet>)
        requires
            self.wf(),
        ensures
            match classes {
                Some(set) => self@.contains_key(path@) && set@ == self@[path@] && set.wf(),
                None => !self@.contains_key(path@),
            },
    {
        self.files.get(path)
    }

    /// The number of tracked files.
    pub fn file_count(&self) -> (n: usize)
        requires
            self.wf(),
        ensures
            n == self@.dom().len(),
    {
        assert(self@.dom() =~= self.files@.dom());
        self.files.len()
    }

    /// The number of tracked files that reference `name`.
    pub fn ref_count(&self, name: &str) -> (n: usize)
        requires
            self.wf(),
        ensures
            n == self.count_of(name@),
            n == ref_count(self@, name@),
    {
        match self.counts.get(name) {
            Some(count) => *count,
            None => 0,
        }
    }

    /// Whether some tracked file references `name`.
    pub fn is_active(&self, name: &str) -> (active: bool)
        requires
            self.wf(),
        ensures
            active == self.active_view().contains(name@),
            active == active_names(self@).contains(name@),
            active == (ref_count(self@, name@) > 0),
    {
        proof {
            self.lemma_counts_match_files(name@);
        }
        self.counts.contains_key(name)
    }

    /// The active set: the names that some tracked file references.
    pub fn active(&self) -> (active: &ClassSet)
        requires
            self.wf(),
        ensures
            active.wf(),
            active@ == self.active_view(),
            active@ == active_names(self@),
    {
        proof {
            self.lemma_counts_match_files(Seq::empty());
        }
        &self.active
    }
}

/// Takes one reference to `name` away: the count goes down by one, and at
/// zero the count is dropped and the name leaves the active set.
fn release_name(
    counts: &mut StringHashMap<usize>,
    active: &mut ClassSet,
    name: &str,
    Ghost(files): Ghost<Files>,
    Ghost(path): Ghost<Seq<char>>,
    Ghost(classes): Ghost<Set<Seq<char>>>,
) -> (left: bool)
    requires
        files.dom().finite(),
        classes.contains(name@),
        old(active).wf(),
        tallied(files.insert(path, classes), old(counts)@, old(active)@),
    ensures
        final(active).wf(),
        tallied(files.insert(path, classes.remove(name@)), final(counts)@, final(active)@),
        old(active)@.contains(name@),
        final(active)@ == if left {
            old(active)@.remove(name@)
        } else {
            old(active)@
        },
{
    let ghost less = classes.remove(name@);
    proof {
        assert(less.insert(name@) =~= classes);
        lemma_one_name(files, path, less, name@);
        lemma_referencing_bounded(files.insert(path, less), name@);
    }
    let count: usize = match counts.get(name) {
        Some(count) => *count,
        None => 0,
    };
    if count <= 1 {
        counts.remove(name);
        active.remove(name);
        true
    } else {
        counts.insert(name.to_owned(), count - 1);
        assert(counts@.dom() =~= old(counts)@.dom());
        false
    }
}

/// Adds one reference to `name`: a name without a count enters the active
/// set, and the count goes up by one.
fn claim_name(
    counts: &mut StringHashMap<usize>,
    active: &mut ClassSet,
    name: &str,
    Ghost(files): Ghost<Files>,
    Ghost(path): Ghost<Seq<char>>,
    Ghost(classes): Ghost<Set<Seq<char>>>,
) -> (entered: bool)
    requires
        files.dom().finite(),
        files.insert(path, classes).dom().len() <= usize::MAX,
        !classes.contains(name@),
        old(active).wf(),
        tallied(files.insert(path, classes), old(counts)@, old(active)@),
    ensures
        final(active).wf(),
        tallied(files.insert(path, classes.insert(name@)), final(counts)@, final(active)@),
        entered == !old(active)@.contains(name@),
        final(active)@ == old(active)@.insert(name@),
{
    let ghost more = classes.insert(name@);
    proof {
        lemma_one_name(files, path, classes, name@);
        assert(files.insert(path, more).dom() =~= files.insert(path, classes).dom());
        lemma_referencing_bounded(files.insert(path, more), name@);
        lemma_referencing_bounded(files.insert(path, classes), name@);
    }
    let count: usize = match counts.get(name) {
        Some(count) => *count,
        None => 0,
    };
    let entered = count == 0;
    if entered {
        active.insert(name);
    } else {
        assert(active@ =~= active@.insert(name@));
    }
    counts.insert(name.to_owned(), count + 1);
    assert(counts@.dom() =~= old(counts)@.dom().insert(name@));
    entered
}

/// Replaces the class names of `path` by `new_classnames`, tracking the
/// path if it was not tracked. Returns how many names the file gained, how
/// many it lost, how many names entered the active set and how many left it.
pub fn update_class_maps(path: &str, new_classnames: &ClassSet, registry: &mut Registry) -> (delta: (
    usize,
    usize,
    usize,
    usize,
))
    requires
        old(registry).wf(),
        new_classnames.wf(),
    ensures
        final(registry).wf(),
        final(registry)@ == old(registry)@.insert(path@, new_classnames@),
        (delta.0 as nat, delta.1 as nat, delta.2 as nat, delta.3 as nat) == update_deltas(
            old(registry)@,
            path@,
            new_classnames@,
        ),
{
    let ghost before = registry@;
    let ghost active0 = registry.active@;
    proof {
        registry.lemma_counts_match_files(path@);
        lemma_empty_file(before.remove(path@), path@);
        lemma_increasing_len(registry.active.names());
    }
    if !registry.files.contains_key(path) {
        registry.files.insert(path.to_owned(), ClassSet::new());
    }
    let ghost base = registry@;
    let ghost files0 = registry.files;
    let ghost gone = classes_of(before, path@);
    proof {
        assert(base =~= before.insert(path@, gone));
        assert(base.dom() =~= registry.files@.dom());
        if !before.contains_key(path@) {
            assert(before.remove(path@) =~= before);
        }
        assert forall|name: Seq<char>| #[trigger] referencing(base, name) == referencing(before, name) by {
            assert(referencing(base, name) =~= referencing(before, name));
        }
        assert(base.insert(path@, gone) =~= base);
    }
    let total = registry.files.len();
    let empty = ClassSet::new();
    let old_set: &ClassSet = match registry.files.get(path) {
        Some(set) => set,
        None => &empty,
    };
    let ghost mut cur = old_set@;
    proof {
        assert(seen(old_set.names(), 0) =~= Set::<Seq<char>>::empty());
        assert(seen(old_set.names(), 0).difference(new_classnames@) =~= Set::<Seq<char>>::empty());
        assert(active0.difference(registry.active@) =~= Set::<Seq<char>>::empty());
        assert(cur =~= old_set@.difference(seen(old_set.names(), 0).difference(new_classnames@)));
    }
    let mut removed_in_file: usize = 0;
    let mut removed_in_global: usize = 0;
    let mut i: usize = 0;
    while i < old_set.len()
        invariant
            i <= old_set.names().len(),
            old_set.wf(),
            new_classnames.wf(),
            registry.files == files0,
            registry.active.wf(),
            base.dom().finite(),
            active0.finite(),
            cur == old_set@.difference(seen(old_set.names(), i as int).difference(new_classnames@)),
            tallied(base.insert(path@, cur), registry.counts@, registry.active@),
            removed_in_file == seen(old_set.names(), i as int).difference(new_classnames@).len(),
            removed_in_file <= i,
            registry.active@.subset_of(active0),
            active0.difference(registry.active@).subset_of(old_set@.difference(new_classnames@)),
            removed_in_global == active0.difference(registry.active@).len(),
            removed_in_global <= i,
        decreases old_set.names().len() - i,
    {
        let name = old_set.get(i);
        let ghost done = seen(old_set.names(), i as int).difference(new_classnames@);
        let ghost left0 = active0.difference(registry.active@);
        proof {
            lemma_seen_step(old_set.names(), i as int);
        }
        if !new_classnames.contains(name) {
            let left = release_name(
                &mut registry.counts,
                &mut registry.active,
                name,
                Ghost(base),
                Ghost(path@),
                Ghost(cur),
            );
            proof {
                cur = cur.remove(name@);
                assert(seen(old_set.names(), i + 1).difference(new_classnames@) =~= done.insert(name@));
                if left {
                    assert(active0.difference(registry.active@) =~= left0.insert(name@));
                } else {
                    assert(active0.difference(registry.active@) =~= left0);
                }
            }
            removed_in_file += 1;
            if left {
                removed_in_global += 1;
            }
        } else {
            assert(seen(old_set.names(), i + 1).difference(new_classnames@) =~= done);
        }
        i += 1;
    }
    let ghost active1 = registry.active@;
    proof {
        assert(old_set.names().take(old_set.names().len() as int) =~= old_set.names());
        assert(cur =~= old_set@.intersect(new_classnames@));
        assert(seen(new_classnames.names(), 0) =~= Set::<Seq<char>>::empty());
        assert(seen(new_classnames.names(), 0).difference(old_set@) =~= Set::<Seq<char>>::empty());
        assert(registry.active@.difference(active1) =~= Set::<Seq<char>>::empty());
        assert(cur =~= old_set@.intersect(new_classnames@).union(
            seen(new_classnames.names(), 0).difference(old_set@),
        ));
    }
    let mut added_in_file: usize = 0;
    let mut added_in_global: usize = 0;
    let mut j: usize = 0;
    while j < new_classnames.len()
        invariant
            j <= new_classnames.names().len(),
            old_set.wf(),
            new_classnames.wf(),
            registry.files == files0,
            registry.active.wf(),
            base.dom().finite(),
            base.contains_key(path@),
            total == base.dom().len(),
            cur == old_set@.intersect(new_classnames@).union(
                seen(new_classnames.names(), j as int).difference(old_set@),
            ),
            tallied(base.insert(path@, cur), registry.counts@, registry.active@),
            added_in_file == seen(new_classnames.names(), j as int).difference(old_set@).len(),
            added_in_file <= j,
            active1.subset_of(registry.active@),
            registry.active@.difference(active1).subset_of(new_classnames@.difference(old_set@)),
            added_in_global == registry.active@.difference(active1).len(),
            added_in_global <= j,
        decreases new_classnames.names().len() - j,
    {
        let name = new_classnames.get(j);
        let ghost done = seen(new_classnames.names(), j as int).difference(old_set@);
        let ghost entered0 = registry.active@.difference(active1);
        proof {
            lemma_seen_step(new_classnames.names(), j as int);
            lemma_increasing_len(registry.active.names());
            assert(base.insert(path@, cur).dom() =~= base.dom());
        }
        if !old_set.contains(name) {
            let entered = claim_name(
                &mut registry.counts,
                &mut registry.active,
                name,
                Ghost(base),
                Ghost(path@),
                Ghost(cur),
            );
            proof {
                cur = cur.insert(name@);
                assert(seen(new_classnames.names(), j + 1).difference(old_set@) =~= done.insert(name@));
                if entered {
                    assert(registry.active@.difference(active1) =~= entered0.insert(name@));
                } else {
                    assert(registry.active@.difference(active1) =~= entered0);
                }
            }
            added_in_file += 1;
            if entered {
                added_in_global += 1;
            }
        } else {
            assert(seen(new_classnames.names(), j + 1).difference(old_set@) =~= done);
        }
        j += 1;
    }
    proof {
        assert(new_classnames.names().take(new_classnames.names().len() as int) =~= new_classnames.names());
        assert(cur =~= new_classnames@);
        assert(old_set@ == gone);
    }
    let ghost active2 = registry.active@;
    registry.files.insert(path.to_owned(), new_classnames.clone());
    proof {
        assert(registry@ =~= base.insert(path@, new_classnames@));
        assert(registry@ =~= before.insert(path@, new_classnames@));
        registry.lemma_counts_match_files(path@);
        assert forall|name: Seq<char>|
            active2.difference(active0).contains(name) <==> active2.difference(active1).contains(name) by {
            if active2.difference(active1).contains(name) && active0.contains(name) {
                assert(active0.difference(active1).contains(name));
            }
        }
        assert forall|name: Seq<char>|
            active0.difference(active2).contains(name) <==> active0.difference(active1).contains(name) by {
            if active0.difference(active1).contains(name) && active2.contains(name) {
                assert(active2.difference(active1).contains(name));
            }
        }
        assert(active2.difference(active0) =~= active2.difference(active1));
        assert(active0.difference(active2) =~= active0.difference(active1));
    }
    (added_in_file, removed_in_file, added_in_global, removed_in_global)
}

/// What a removal reports: how many names the file held, and how many names
/// left the active set.
pub open spec fn remove_deltas(files: Files, path: Seq<char>) -> (nat, nat) {
    (
        classes_of(files, path).len(),
        active_names(files).difference(active_names(files.remove(path))).len(),
    )
}

/// Stops tracking `path`: its names are released and its entry is deleted.
/// Returns `None` for a path that was not tracked, else how many names the
/// file held and how many names left the active set.
pub fn remove_class_maps(path: &str, registry: &mut Registry) -> (delta: Option<(usize, usize)>)
    requires
        old(registry).wf(),
    ensures
        final(registry).wf(),
        final(registry)@ == old(registry)@.remove(path@),
        match delta {
            Some(d) => old(registry)@.contains_key(path@) && (d.0 as nat, d.1 as nat) == remove_deltas(
                old(registry)@,
                path@,
            ),
            None => !old(registry)@.contains_key(path@),
        },
{
    if !registry.files.contains_key(path) {
        assert(registry@ =~= registry@.remove(path@));
        return None;
    }
    let ghost before = registry@;
    let empty = ClassSet::new();
    let delta = update_class_maps(path, &empty, registry);
    let ghost cleared = registry@;
    proof {
        registry.lemma_counts_match_files(path@);
        lemma_empty_file(cleared, path@);
        lemma_clear_then_remove(before, path@);
        assert(before[path@].difference(Set::<Seq<char>>::empty()) =~= before[path@]);
    }
    registry.files.remove(path);
    proof {
        assert(registry@ =~= cleared.remove(path@));
        assert(registry@.dom() =~= registry.files@.dom());
    }
    Some((delta.1, delta.3))
}

/// Updating a file twice in a row with the same class names changes nothing
/// the second time: the files stay as they are and all four deltas are zero.
pub proof fn lemma_update_twice(files: Files, path: Seq<char>, classes: Set<Seq<char>>)
    ensures
        files.insert(path, classes).insert(path, classes) == files.insert(path, classes),
        update_deltas(files.insert(path, classes), path, classes) == (0nat, 0nat, 0nat, 0nat),
{
    let once = files.insert(path, classes);
    assert(once.insert(path, classes) =~= once);
    assert(classes.difference(classes_of(once, path)) =~= Set::<Seq<char>>::empty());
    assert(active_names(once).difference(active_names(once)) =~= Set::<Seq<char>>::empty());
}

/// Emptying a file and then removing it leaves the same files, the same
/// counts and the same active names as removing it at once; so it does, in
/// particular, where the file held no names before.
pub proof fn lemma_clear_then_remove(files: Files, path: Seq<char>)
    ensures
        files.insert(path, Set::empty()).remove(path) == files.remove(path),
        active_names(files.insert(path, Set::empty())) == active_names(files.remove(path)),
        forall|name: Seq<char>| #[trigger]
            ref_count(files.insert(path, Set::empty()), name) == ref_count(files.remove(path), name),
{
    assert(files.insert(path, Set::empty()).remove(path) =~= files.remove(path));
    lemma_empty_file(files.insert(path, Set::empty()), path);
    assert(files.insert(path, Set::empty()).insert(path, Set::empty()) =~= files.insert(path, Set::empty()));
}

/// The counts and the active set of a registry follow from the files it
/// tracks: two registries that track the same files keep the same counts
/// and the same active names.
pub proof fn lemma_state_follows_files(a: &Registry, b: &Registry)
    requires
        a.wf(),
        b.wf(),
        a@ == b@,
    ensures
        forall|name: Seq<char>| a.count_of(name) == b.count_of(name),
        a.active_view() == b.active_view(),
{
    assert forall|name: Seq<char>| a.count_of(name) == b.count_of(name) by {
        a.lemma_counts_match_files(name);
        b.lemma_counts_match_files(name);
    }
    a.lemma_counts_match_files(Seq::empty());
    b.lemma_counts_match_files(Seq::empty());
}

} // verus!
