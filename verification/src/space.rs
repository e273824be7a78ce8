//! Remembering each space's tiling. There is no space identifier to key
//! by: a space is recognized by the set of windows on it. Whenever a
//! space's layout is established or changes it is saved under its window
//! set, and returning to a space whose window set (and, as the caller
//! checks, whose window rects) is unchanged restores what was saved. The
//! caller's per-window data (`P`: the windows' rects then) is kept
//! alongside.
use crate::geometry::WindowId;
use crate::workspace::Workspace;
use vstd::prelude::*;

verus! {

/// `a` and `b` hold the same windows (ignoring order and repeats).
pub open spec fn same_windows(a: Seq<WindowId>, b: Seq<WindowId>) -> bool {
    forall|x: WindowId| #[trigger] a.contains(x) <==> #[trigger] b.contains(x)
}

/// Whether `a` and `b` hold the same windows.
pub fn same_window_set(a: &Vec<WindowId>, b: &Vec<WindowId>) -> (r: bool)
    ensures
        r == same_windows(a@, b@),
{
    let mut i: usize = 0;
    while i < a.len()
        invariant
            i <= a@.len(),
            forall|j: int| 0 <= j < i ==> b@.contains(#[trigger] a@[j]),
        decreases a@.len() - i,
    {
        if !holds(b, a[i]) {
            proof {
                assert(a@.contains(a@[i as int]));
            }
            return false;
        }
        i = i + 1;
    }
    let mut k: usize = 0;
    while k < b.len()
        invariant
            k <= b@.len(),
            forall|j: int| 0 <= j < a@.len() ==> b@.contains(#[trigger] a@[j]),
            forall|j: int| 0 <= j < k ==> a@.contains(#[trigger] b@[j]),
        decreases b@.len() - k,
    {
        if !holds(a, b[k]) {
            proof {
                assert(b@.contains(b@[k as int]));
            }
            return false;
        }
        k = k + 1;
    }
    proof {
        assert forall|x: WindowId| #[trigger] a@.contains(x) <==> #[trigger] b@.contains(x) by {
            if a@.contains(x) {
                let j = choose|j: int| 0 <= j < a@.len() && a@[j] == x;
            }
            if b@.contains(x) {
                let j = choose|j: int| 0 <= j < b@.len() && b@[j] == x;
            }
        }
    }
    true
}

fn holds(v: &Vec<WindowId>, id: WindowId) -> (b: bool)
    ensures
        b == v@.contains(id),
{
    let mut i: usize = 0;
    while i < v.len()
        invariant
            i <= v@.len(),
            forall|j: int| 0 <= j < i ==> v@[j] != id,
        decreases v@.len() - i,
    {
        if v[i] == id {
            return true;
        }
        i = i + 1;
    }
    false
}

/// One remembered space.
pub struct SavedSpace<R, P> {
    pub windows: Vec<WindowId>,
    pub workspace: Workspace<R>,
    pub payload: P,
}

/// The remembered spaces, at most one per window set.
pub struct SpaceCache<R, P> {
    entries: Vec<SavedSpace<R, P>>,
}

/// The first entry saved under a window set equal to `key`, if any.
pub open spec fn entry_for<R, P>(entries: Seq<SavedSpace<R, P>>, key: Seq<WindowId>) -> Option<int>
    decreases entries.len(),
{
    if entries.len() == 0 {
        None
    } else {
        match entry_for(entries.drop_last(), key) {
            Some(i) => Some(i),
            None => if same_windows(entries.last().windows@, key) {
                Some(entries.len() - 1)
            } else {
                None
            },
        }
    }
}

proof fn lemma_entry_for<R, P>(entries: Seq<SavedSpace<R, P>>, key: Seq<WindowId>)
    ensures
        match entry_for(entries, key) {
            Some(i) => 0 <= i < entries.len() && same_windows(entries[i].windows@, key) && forall|
                j: int,
            | 0 <= j < i ==> !same_windows(#[trigger] entries[j].windows@, key),
            None => forall|j: int|
                0 <= j < entries.len() ==> !same_windows(#[trigger] entries[j].windows@, key),
        },
    decreases entries.len(),
{
    if entries.len() > 0 {
        lemma_entry_for(entries.drop_last(), key);
        match entry_for(entries.drop_last(), key) {
            Some(i) => {
                assert forall|j: int| 0 <= j < i implies !same_windows(
                    #[trigger] entries[j].windows@,
                    key,
                ) by {
                    assert(entries[j] == entries.drop_last()[j]);
                }
                assert(entries[i] == entries.drop_last()[i]);
            },
            None => {
                assert forall|j: int| 0 <= j < entries.len() - 1 implies !same_windows(
                    #[trigger] entries[j].windows@,
                    key,
                ) by {
                    assert(entries[j] == entries.drop_last()[j]);
                }
            },
        }
    }
}

impl<R: Copy, P> SpaceCache<R, P> {
    /// The remembered spaces.
    pub closed spec fn entries_view(self) -> Seq<SavedSpace<R, P>> {
        self.entries@
    }

    /// No two remembered spaces have the same window set.
    pub open spec fn wf(self) -> bool {
        forall|i: int, j: int|
            0 <= i < j < self.entries_view().len() ==> !same_windows(
                #[trigger] self.entries_view()[i].windows@,
                #[trigger] self.entries_view()[j].windows@,
            )
    }

    /// Nothing remembered.
    pub fn new() -> (c: Self)
        ensures
            c.wf(),
            c.entries_view().len() == 0,
    {
        SpaceCache { entries: Vec::new() }
    }

    fn find(&self, windows: &Vec<WindowId>) -> (r: Option<usize>)
        ensures
            match r {
                Some(i) => entry_for(self.entries@, windows@) == Some(i as int),
                None => entry_for(self.entries@, windows@) is None,
            },
    {
        let mut i: usize = 0;
        let mut found: Option<usize> = None;
        while i < self.entries.len()
            invariant
                i <= self.entries@.len(),
                match found {
                    Some(k) => entry_for(self.entries@.take(i as int), windows@) == Some(k as int),
                    None => entry_for(self.entries@.take(i as int), windows@) is None,
                },
            decreases self.entries@.len() - i,
        {
            proof {
                assert(self.entries@.take(i + 1).drop_last() =~= self.entries@.take(i as int));
            }
            if found.is_none() && same_window_set(&self.entries[i].windows, windows) {
                found = Some(i);
            }
            i = i + 1;
        }
        proof {
            assert(self.entries@.take(self.entries@.len() as int) =~= self.entries@);
        }
        found
    }

    /// The space remembered under `windows`' set, if any.
    pub fn lookup(&self, windows: &Vec<WindowId>) -> (r: Option<&SavedSpace<R, P>>)
        ensures
            match entry_for(self.entries_view(), windows@) {
                Some(i) => r == Some(&self.entries_view()[i]),
                None => r is None,
            },
    {
        proof {
            lemma_entry_for(self.entries@, windows@);
        }
        match self.find(windows) {
            Some(i) => Some(&self.entries[i]),
            None => None,
        }
    }

    /// Remembers `space` under its window set, replacing what was saved
    /// under the same set.
    pub fn save(&mut self, space: SavedSpace<R, P>)
        requires
            old(self).wf(),
        ensures
            final(self).wf(),
            final(self).entries_view().contains(space),
            forall|k: Seq<WindowId>|
                same_windows(k, space.windows@) ==> match #[trigger] entry_for(
                    final(self).entries_view(),
                    k,
                ) {
                    Some(i) => final(self).entries_view()[i] == space,
                    None => false,
                },
            forall|k: Seq<WindowId>|
                !same_windows(k, space.windows@) ==> #[trigger] entry_for(
                    final(self).entries_view(),
                    k,
                ) == entry_for(old(self).entries_view(), k) && (entry_for(
                    old(self).entries_view(),
                    k,
                ) matches Some(i) ==> final(self).entries_view()[i] == old(
                    self).entries_view()[i]),
    {
        let ghost key = space.windows@;
        self.save_inner(space);
        proof {
            assert forall|k: Seq<WindowId>| same_windows(k, key) implies match #[trigger] entry_for(
                self.entries@,
                k,
            ) {
                Some(i) => self.entries@[i] == space,
                None => false,
            } by {
                lemma_entry_for_eq_keys(self.entries@, k, key);
            }
        }
    }

    fn save_inner(&mut self, space: SavedSpace<R, P>)
        requires
            old(self).wf(),
        ensures
            final(self).wf(),
            final(self).entries_view().contains(space),
            match entry_for(final(self).entries_view(), space.windows@) {
                Some(i) => final(self).entries_view()[i] == space,
                None => false,
            },
            forall|k: Seq<WindowId>|
                !same_windows(k, space.windows@) ==> #[trigger] entry_for(
                    final(self).entries_view(),
                    k,
                ) == entry_for(old(self).entries_view(), k) && (entry_for(
                    old(self).entries_view(),
                    k,
                ) matches Some(i) ==> final(self).entries_view()[i] == old(
                    self).entries_view()[i]),
    {
        let ghost key = space.windows@;
        proof {
            lemma_entry_for(self.entries@, key);
        }
        match self.find(&space.windows) {
            Some(i) => {
                let ghost before = self.entries@;
                self.entries.set(i, space);
                proof {
                    assert(self.entries@ == before.update(i as int, space));
                    assert(self.entries@.contains(space)) by {
                        assert(self.entries@[i as int] == space);
                    }
                    self.lemma_replace_keeps(before, i as int, space);
                }
            },
            None => {
                let ghost before = self.entries@;
                self.entries.push(space);
                proof {
                    assert(self.entries@.drop_last() =~= before);
                    assert(self.entries@[before.len() as int] == space);
                    assert forall|k: Seq<WindowId>| !same_windows(k, key) implies #[trigger] entry_for(
                        self.entries@,
                        k,
                    ) == entry_for(before, k) && (entry_for(before, k) matches Some(j)
                        ==> self.entries@[j] == before[j]) by {
                        lemma_entry_for(before, k);
                        assert(!same_windows(space.windows@, k)) by {
                            if same_windows(space.windows@, k) {
                                assert forall|x: WindowId| #[trigger] k.contains(x) <==> #[trigger] key.contains(x) by {
                                    assert(space.windows@.contains(x) <==> k.contains(x));
                                }
                            }
                        }
                    }
                    assert forall|a: int, b: int|
                        0 <= a < b < self.entries@.len() implies !same_windows(
                        #[trigger] self.entries@[a].windows@,
                        #[trigger] self.entries@[b].windows@,
                    ) by {
                        if b == before.len() {
                            assert(self.entries@[a] == before[a]);
                            if same_windows(before[a].windows@, key) {
                                assert(false);
                            }
                        } else {
                            assert(self.entries@[a] == before[a]);
                            assert(self.entries@[b] == before[b]);
                        }
                    }
                    assert(self.entries@.contains(space)) by {
                        assert(self.entries@[before.len() as int] == space);
                    }
                    assert(same_windows(space.windows@, key));
                }
            },
        }
    }

    proof fn lemma_replace_keeps(
        self,
        before: Seq<SavedSpace<R, P>>,
        i: int,
        space: SavedSpace<R, P>,
    )
        requires
            forall|a: int, b: int|
                0 <= a < b < before.len() ==> !same_windows(
                    #[trigger] before[a].windows@,
                    #[trigger] before[b].windows@,
                ),
            entry_for(before, space.windows@) == Some(i),
            self.entries_view() == before.update(i, space),
        ensures
            self.wf(),
            entry_for(self.entries_view(), space.windows@) == Some(i),
            forall|k: Seq<WindowId>|
                !same_windows(k, space.windows@) ==> #[trigger] entry_for(self.entries_view(), k)
                    == entry_for(before, k) && (entry_for(before, k) matches Some(j)
                    ==> self.entries_view()[j] == before[j]),
    {
        let after = self.entries_view();
        let key = space.windows@;
        lemma_entry_for(before, key);
        assert(same_windows(before[i].windows@, key));
        // Every entry's set relates to any `k` the same way before and after.
        assert forall|k: Seq<WindowId>, j: int|
            0 <= j < after.len() implies (#[trigger] same_windows(after[j].windows@, k)
            <==> same_windows(before[j].windows@, k)) by {
            if j == i {
                lemma_same_windows_trans(after[j].windows@, before[j].windows@, k);
                lemma_same_windows_trans(before[j].windows@, after[j].windows@, k);
            }
        }
        assert forall|a: int, b: int|
            0 <= a < b < after.len() implies !same_windows(
            #[trigger] after[a].windows@,
            #[trigger] after[b].windows@,
        ) by {
            assert(same_windows(after[a].windows@, after[b].windows@) <==> same_windows(
                before[a].windows@,
                after[b].windows@,
            ));
            lemma_same_windows_symmetric(before[a].windows@, after[b].windows@);
            lemma_same_windows_symmetric(after[b].windows@, before[a].windows@);
            assert(same_windows(after[b].windows@, before[a].windows@) <==> same_windows(
                before[b].windows@,
                before[a].windows@,
            ));
            lemma_same_windows_symmetric(before[b].windows@, before[a].windows@);
        }
        assert forall|k: Seq<WindowId>|
            !same_windows(k, key) implies #[trigger] entry_for(after, k) == entry_for(before, k) && (
            entry_for(before, k) matches Some(j) ==> after[j] == before[j]) by {
            lemma_entry_for_same(after, before, k);
            lemma_entry_for(before, k);
            if let Some(j) = entry_for(before, k) {
                if j == i {
                    lemma_same_windows_symmetric(k, key);
                    lemma_same_windows_trans(before[i].windows@, key, k);
                    lemma_same_windows_symmetric(before[i].windows@, k);
                    lemma_same_windows_symmetric(key, before[i].windows@);
                    lemma_same_windows_trans(key, before[i].windows@, k);
                    lemma_same_windows_symmetric(key, k);
                }
            }
        }
        lemma_entry_for_same(after, before, key);
    }
}

/// Holding the same windows is symmetric.
proof fn lemma_same_windows_symmetric(a: Seq<WindowId>, b: Seq<WindowId>)
    ensures
        same_windows(a, b) ==> same_windows(b, a),
{
}

/// Holding the same windows is transitive.
proof fn lemma_same_windows_trans(a: Seq<WindowId>, b: Seq<WindowId>, c: Seq<WindowId>)
    ensures
        same_windows(a, b) && same_windows(b, c) ==> same_windows(a, c),
{
    if same_windows(a, b) && same_windows(b, c) {
        assert forall|x: WindowId| #[trigger] a.contains(x) <==> #[trigger] c.contains(x) by {
            assert(a.contains(x) <==> b.contains(x));
            assert(b.contains(x) <==> c.contains(x));
        }
    }
}

/// Two lists whose sets relate to `k` alike, entry by entry, find the same
/// entry for it.
proof fn lemma_entry_for_same<R, P>(
    e1: Seq<SavedSpace<R, P>>,
    e2: Seq<SavedSpace<R, P>>,
    k: Seq<WindowId>,
)
    requires
        e1.len() == e2.len(),
        forall|j: int|
            0 <= j < e1.len() ==> (same_windows(#[trigger] e1[j].windows@, k) <==> same_windows(
                e2[j].windows@,
                k,
            )),
    ensures
        entry_for(e1, k) == entry_for(e2, k),
    decreases e1.len(),
{
    if e1.len() > 0 {
        assert forall|j: int|
            0 <= j < e1.drop_last().len() implies (same_windows(
            #[trigger] e1.drop_last()[j].windows@,
            k,
        ) <==> same_windows(e2.drop_last()[j].windows@, k)) by {
            assert(e1.drop_last()[j] == e1[j]);
            assert(e2.drop_last()[j] == e2[j]);
        }
        lemma_entry_for_same(e1.drop_last(), e2.drop_last(), k);
        assert(same_windows(e1[e1.len() - 1].windows@, k) <==> same_windows(
            e2[e2.len() - 1].windows@,
            k,
        ));
    }
}

/// Window lists holding the same windows find the same entry.
proof fn lemma_entry_for_eq_keys<R, P>(e: Seq<SavedSpace<R, P>>, k1: Seq<WindowId>, k2: Seq<WindowId>)
    requires
        same_windows(k1, k2),
    ensures
        entry_for(e, k1) == entry_for(e, k2),
    decreases e.len(),
{
    if e.len() > 0 {
        lemma_entry_for_eq_keys(e.drop_last(), k1, k2);
        let w = e.last().windows@;
        lemma_same_windows_trans(w, k1, k2);
        lemma_same_windows_symmetric(k1, k2);
        lemma_same_windows_trans(w, k2, k1);
    }
}

} // verus!
