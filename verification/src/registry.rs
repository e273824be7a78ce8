//! The windows hyperwm knows: each gets a [`WindowId`] when first seen,
//! kept with its accessibility element (`E`, opaque here), its owning
//! process, and -- once correlated -- its window-server id. Ids are handed
//! out in increasing order and never reused within a run.
//!
//! Whether two accessibility elements are the same window is the platform's
//! call; lookups by element take that test as a function from the caller.
use crate::geometry::WindowId;
use vstd::prelude::*;

verus! {

/// One known window.
pub struct Entry<E> {
    pub id: WindowId,
    pub element: E,
    pub pid: i32,
    /// The window-server id, once correlated.
    pub cg_id: Option<u32>,
}

/// The known windows, in registration order.
pub struct WindowRegistry<E> {
    next_id: u64,
    entries: Vec<Entry<E>>,
}

impl<E> WindowRegistry<E> {
    /// The entries, in registration order.
    pub closed spec fn entries_view(self) -> Seq<Entry<E>> {
        self.entries@
    }

    /// The last id handed out (0 before any).
    pub closed spec fn last_id(self) -> u64 {
        self.next_id
    }

    /// Ids increase along the entries and never exceed the last one handed
    /// out.
    pub open spec fn wf(self) -> bool {
        &&& forall|i: int, j: int|
            0 <= i < j < self.entries_view().len() ==> (#[trigger] self.entries_view()[i]).id.0
                < (#[trigger] self.entries_view()[j]).id.0
        &&& forall|i: int|
            0 <= i < self.entries_view().len() ==> (#[trigger] self.entries_view()[i]).id.0
                <= self.last_id()
    }

    /// No windows known yet.
    pub fn new() -> (r: Self)
        ensures
            r.wf(),
            r.entries_view().len() == 0,
            r.last_id() == 0,
    {
        WindowRegistry { next_id: 0, entries: Vec::new() }
    }

    /// Whether another window can still be given a fresh id.
    pub fn can_register(&self) -> (b: bool)
        ensures
            b == (self.last_id() < u64::MAX),
    {
        self.next_id < u64::MAX
    }

    /// Registers a window (callers check it isn't known yet), giving it the
    /// next id.
    pub fn register(&mut self, element: E, pid: i32) -> (id: WindowId)
        requires
            old(self).wf(),
            old(self).last_id() < u64::MAX,
        ensures
            final(self).wf(),
            id.0 == old(self).last_id() + 1,
            final(self).last_id() == id.0,
            final(self).entries_view() == old(self).entries_view().push(
                Entry { id, element, pid, cg_id: None },
            ),
            forall|i: int|
                0 <= i < old(self).entries_view().len() ==> (#[trigger] old(
                    self).entries_view()[i]).id != id,
    {
        self.next_id = self.next_id + 1;
        let id = WindowId(self.next_id);
        self.entries.push(Entry { id, element, pid, cg_id: None });
        id
    }

    fn position(&self, id: WindowId) -> (r: Option<usize>)
        ensures
            match r {
                Some(i) => i < self.entries@.len() && self.entries@[i as int].id == id && forall|
                    j: int,
                | 0 <= j < i ==> (#[trigger] self.entries@[j]).id != id,
                None => forall|j: int|
                    0 <= j < self.entries@.len() ==> (#[trigger] self.entries@[j]).id != id,
            },
    {
        let mut i: usize = 0;
        while i < self.entries.len()
            invariant
                i <= self.entries@.len(),
                forall|j: int| 0 <= j < i ==> (#[trigger] self.entries@[j]).id != id,
            decreases self.entries@.len() - i,
        {
            if self.entries[i].id == id {
                return Some(i);
            }
            i = i + 1;
        }
        None
    }

    /// The element registered as `id`.
    pub fn element_for(&self, id: WindowId) -> (r: Option<&E>)
        ensures
            match r {
                Some(e) => exists|i: int|
                    0 <= i < self.entries_view().len() && (#[trigger] self.entries_view()[i]).id
                        == id && self.entries_view()[i].element == *e,
                None => forall|i: int|
                    0 <= i < self.entries_view().len() ==> (
                    #[trigger] self.entries_view()[i]).id != id,
            },
    {
        match self.position(id) {
            Some(i) => {
                let r = &self.entries[i].element;
                proof {
                    assert(self.entries_view()[i as int].id == id);
                }
                Some(r)
            },
            None => None,
        }
    }

    /// The process that owns the window registered as `id`.
    pub fn pid_for(&self, id: WindowId) -> (r: Option<i32>)
        ensures
            match r {
                Some(p) => exists|i: int|
                    0 <= i < self.entries_view().len() && (#[trigger] self.entries_view()[i]).id
                        == id && self.entries_view()[i].pid == p,
                None => forall|i: int|
                    0 <= i < self.entries_view().len() ==> (
                    #[trigger] self.entries_view()[i]).id != id,
            },
    {
        match self.position(id) {
            Some(i) => {
                proof {
                    assert(self.entries_view()[i as int].id == id);
                }
                Some(self.entries[i].pid)
            },
            None => None,
        }
    }

    /// The ids of the windows owned by `pid`, in registration order.
    pub fn ids_for_pid(&self, pid: i32) -> (ids: Vec<WindowId>)
        ensures
            ids@ == ids_with_pid(self.entries_view(), pid),
            forall|x: WindowId|
                #[trigger] ids@.contains(x) <==> exists|i: int|
                    0 <= i < self.entries_view().len() && (#[trigger] self.entries_view()[i]).id
                        == x && self.entries_view()[i].pid == pid,
    {
        let mut ids: Vec<WindowId> = Vec::new();
        let mut i: usize = 0;
        while i < self.entries.len()
            invariant
                i <= self.entries@.len(),
                ids@ == ids_with_pid(self.entries@.take(i as int), pid),
                forall|x: WindowId|
                    #[trigger] ids@.contains(x) <==> exists|j: int|
                        0 <= j < i && (#[trigger] self.entries@[j]).id == x && self.entries@[j].pid
                            == pid,
            decreases self.entries@.len() - i,
        {
            proof {
                assert(self.entries@.take(i + 1).drop_last() =~= self.entries@.take(i as int));
            }
            if self.entries[i].pid == pid {
                let ghost before = ids@;
                ids.push(self.entries[i].id);
                proof {
                    assert forall|x: WindowId| #[trigger] ids@.contains(x) <==> exists|j: int|
                        0 <= j < i + 1 && (#[trigger] self.entries@[j]).id == x
                            && self.entries@[j].pid == pid by {
                        if ids@.contains(x) && x != self.entries@[i as int].id {
                            let k = choose|k: int| 0 <= k < ids@.len() && ids@[k] == x;
                            assert(before[k] == x);
                            assert(before.contains(x));
                        }
                        if exists|j: int|
                            0 <= j < i && (#[trigger] self.entries@[j]).id == x
                                && self.entries@[j].pid == pid {
                            assert(before.contains(x));
                            let k = choose|k: int| 0 <= k < before.len() && before[k] == x;
                            assert(ids@[k] == x);
                        }
                        assert(ids@[before.len() as int] == self.entries@[i as int].id);
                    }
                }
            } else {
                proof {
                    assert forall|x: WindowId| #[trigger] ids@.contains(x) <==> exists|j: int|
                        0 <= j < i + 1 && (#[trigger] self.entries@[j]).id == x
                            && self.entries@[j].pid == pid by {
                        if exists|j: int|
                            0 <= j < i + 1 && (#[trigger] self.entries@[j]).id == x
                                && self.entries@[j].pid == pid {
                            let j = choose|j: int|
                                0 <= j < i + 1 && (#[trigger] self.entries@[j]).id == x
                                    && self.entries@[j].pid == pid;
                            assert(j != i);
                        }
                    }
                }
            }
            i = i + 1;
        }
        proof {
            assert(self.entries@.take(self.entries@.len() as int) =~= self.entries@);
        }
        ids
    }

    /// The id already correlated with window-server id `cg_id`.
    pub fn id_for_cg_id(&self, cg_id: u32) -> (r: Option<WindowId>)
        ensures
            match r {
                Some(id) => exists|i: int|
                    0 <= i < self.entries_view().len() && (#[trigger] self.entries_view()[i]).id
                        == id && self.entries_view()[i].cg_id == Some(cg_id),
                None => forall|i: int|
                    0 <= i < self.entries_view().len() ==> (
                    #[trigger] self.entries_view()[i]).cg_id != Some(cg_id),
            },
    {
        let mut i: usize = 0;
        while i < self.entries.len()
            invariant
                i <= self.entries@.len(),
                forall|j: int| 0 <= j < i ==> (#[trigger] self.entries@[j]).cg_id != Some(cg_id),
            decreases self.entries@.len() - i,
        {
            if self.entries[i].cg_id == Some(cg_id) {
                proof {
                    assert(self.entries_view()[i as int].cg_id == Some(cg_id));
                }
                return Some(self.entries[i].id);
            }
            i = i + 1;
        }
        None
    }

    /// Records that `id`'s window is `cg_id` on the window-server side.
    /// Nothing happens when `id` isn't registered.
    pub fn set_cg_id(&mut self, id: WindowId, cg_id: u32)
        requires
            old(self).wf(),
        ensures
            final(self).wf(),
            final(self).last_id() == old(self).last_id(),
            final(self).entries_view().len() == old(self).entries_view().len(),
            forall|i: int|
                0 <= i < old(self).entries_view().len() ==> {
                    let o = #[trigger] old(self).entries_view()[i];
                    let n = final(self).entries_view()[i];
                    &&& n.id == o.id
                    &&& n.pid == o.pid
                    &&& n.element == o.element
                    &&& n.cg_id == (if o.id == id {
                        Some(cg_id)
                    } else {
                        o.cg_id
                    })
                },
    {
        match self.position(id) {
            Some(i) => {
                let ghost before = self.entries@;
                let mut entries = Vec::new();
                std::mem::swap(&mut entries, &mut self.entries);
                let mut entry = entries.remove(i);
                entry.cg_id = Some(cg_id);
                entries.insert(i, entry);
                self.entries = entries;
                proof {
                    assert forall|j: int| 0 <= j < before.len() && j != i implies self.entries@[j]
                        == before[j] by {}
                }
            },
            None => {},
        }
    }

    /// Forgets the window registered as `id`.
    pub fn remove(&mut self, id: WindowId)
        requires
            old(self).wf(),
        ensures
            final(self).wf(),
            final(self).last_id() == old(self).last_id(),
            final(self).entries_view() == entries_without(old(self).entries_view(), id),
    {
        let ghost before = self.entries@;
        match self.position(id) {
            Some(i) => {
                self.entries.remove(i);
                proof {
                    assert(self.entries@ == before.remove(i as int));
                    self.lemma_remove_is_filter(before, i as int, id);
                }
            },
            None => {
                proof {
                    lemma_filter_keeps_all(before, id);
                }
            },
        }
    }

    proof fn lemma_remove_is_filter(self, before: Seq<Entry<E>>, i: int, id: WindowId)
        requires
            0 <= i < before.len(),
            before[i].id == id,
            forall|a: int, b: int|
                0 <= a < b < before.len() ==> (#[trigger] before[a]).id.0 < (#[trigger] before[b]).id.0,
            forall|a: int| 0 <= a < before.len() ==> (#[trigger] before[a]).id.0 <= self.last_id(),
            self.entries_view() == before.remove(i),
        ensures
            self.entries_view() == entries_without(before, id),
            self.wf(),
    {
        assert forall|j: int| 0 <= j < before.len() && j != i implies (#[trigger] before[j]).id
            != id by {
            if j < i {
            } else {
            }
        }
        lemma_filter_removes_one(before, i, id);
        assert forall|a: int, b: int|
            0 <= a < b < self.entries_view().len() implies (#[trigger] self.entries_view()[a]).id.0
            < (#[trigger] self.entries_view()[b]).id.0 by {
            if a < i && b < i {
            } else if a < i {
                assert(self.entries_view()[b] == before[b + 1]);
            } else {
                assert(self.entries_view()[a] == before[a + 1]);
                assert(self.entries_view()[b] == before[b + 1]);
            }
        }
        assert forall|a: int| 0 <= a < self.entries_view().len() implies (
        #[trigger] self.entries_view()[a]).id.0 <= self.last_id() by {
            if a >= i {
                assert(self.entries_view()[a] == before[a + 1]);
            }
        }
    }
}

impl<E> WindowRegistry<E> {
    /// The id of the first registered window that `same` says is the
    /// caller's element (the platform decides what "the same window" is).
    pub fn id_for<F: Fn(&E) -> bool>(&self, same: F) -> (r: Option<WindowId>)
        requires
            forall|e: &E| #[trigger] same.requires((e,)),
        ensures
            match r {
                Some(id) => exists|i: int|
                    0 <= i < self.entries_view().len() && (#[trigger] self.entries_view()[i]).id
                        == id && same.ensures((&self.entries_view()[i].element,), true) && forall|
                        j: int,
                    | 0 <= j < i ==> same.ensures(
                        (&(#[trigger] self.entries_view()[j]).element,),
                        false,
                    ),
                None => forall|i: int|
                    0 <= i < self.entries_view().len() ==> same.ensures(
                        (&(#[trigger] self.entries_view()[i]).element,),
                        false,
                    ),
            },
    {
        let mut i: usize = 0;
        while i < self.entries.len()
            invariant
                i <= self.entries@.len(),
                forall|e: &E| #[trigger] same.requires((e,)),
                forall|j: int|
                    0 <= j < i ==> same.ensures((&(#[trigger] self.entries@[j]).element,), false),
            decreases self.entries@.len() - i,
        {
            if same(&self.entries[i].element) {
                proof {
                    assert(self.entries_view()[i as int].id == self.entries@[i as int].id);
                }
                return Some(self.entries[i].id);
            }
            i = i + 1;
        }
        None
    }

    /// Whether some registered window is the caller's element.
    pub fn is_known<F: Fn(&E) -> bool>(&self, same: F) -> (b: bool)
        requires
            forall|e: &E| #[trigger] same.requires((e,)),
        ensures
            !b ==> forall|i: int|
                0 <= i < self.entries_view().len() ==> same.ensures(
                    (&(#[trigger] self.entries_view()[i]).element,),
                    false,
                ),
            b ==> exists|i: int|
                0 <= i < self.entries_view().len() && same.ensures(
                    (&(#[trigger] self.entries_view()[i]).element,),
                    true,
                ),
    {
        self.id_for(same).is_some()
    }

    /// Forgets the registered window that is the caller's element, returning
    /// its id.
    pub fn remove_by_element<F: Fn(&E) -> bool>(&mut self, same: F) -> (r: Option<WindowId>)
        requires
            old(self).wf(),
            forall|e: &E| #[trigger] same.requires((e,)),
        ensures
            final(self).wf(),
            final(self).last_id() == old(self).last_id(),
            match r {
                Some(id) => (exists|i: int|
                    0 <= i < old(self).entries_view().len() && (#[trigger] old(
                        self).entries_view()[i]).id == id && same.ensures(
                        (&old(self).entries_view()[i].element,),
                        true,
                    ) && forall|j: int|
                        0 <= j < i ==> same.ensures(
                            (&(#[trigger] old(self).entries_view()[j]).element,),
                            false,
                        )) && final(self).entries_view() == entries_without(
                    old(self).entries_view(),
                    id,
                ),
                None => final(self).entries_view() == old(self).entries_view() && forall|i: int|
                    0 <= i < old(self).entries_view().len() ==> same.ensures(
                        (&(#[trigger] old(self).entries_view()[i]).element,),
                        false,
                    ),
            },
    {
        match self.id_for(same) {
            Some(id) => {
                self.remove(id);
                Some(id)
            },
            None => None,
        }
    }
}

/// The ids of the entries of `s` owned by `pid`, in the order of `s`.
pub open spec fn ids_with_pid<E>(s: Seq<Entry<E>>, pid: i32) -> Seq<WindowId>
    decreases s.len(),
{
    if s.len() == 0 {
        seq![]
    } else if s.last().pid == pid {
        ids_with_pid(s.drop_last(), pid).push(s.last().id)
    } else {
        ids_with_pid(s.drop_last(), pid)
    }
}

/// `s` without the entries for `id`.
pub open spec fn entries_without<E>(s: Seq<Entry<E>>, id: WindowId) -> Seq<Entry<E>>
    decreases s.len(),
{
    if s.len() == 0 {
        s
    } else if s.last().id == id {
        entries_without(s.drop_last(), id)
    } else {
        entries_without(s.drop_last(), id).push(s.last())
    }
}

proof fn lemma_filter_keeps_all<E>(s: Seq<Entry<E>>, id: WindowId)
    requires
        forall|j: int| 0 <= j < s.len() ==> (#[trigger] s[j]).id != id,
    ensures
        entries_without(s, id) == s,
    decreases s.len(),
{
    if s.len() > 0 {
        lemma_filter_keeps_all(s.drop_last(), id);
        assert(s.drop_last().push(s.last()) =~= s);
    }
}

proof fn lemma_filter_removes_one<E>(s: Seq<Entry<E>>, i: int, id: WindowId)
    requires
        0 <= i < s.len(),
        s[i].id == id,
        forall|j: int| 0 <= j < s.len() && j != i ==> (#[trigger] s[j]).id != id,
    ensures
        entries_without(s, id) == s.remove(i),
    decreases s.len(),
{
    if i == s.len() - 1 {
        assert(s.drop_last() =~= s.remove(i));
        lemma_filter_keeps_all(s.drop_last(), id);
    } else {
        lemma_filter_removes_one(s.drop_last(), i, id);
        assert(s.drop_last().remove(i).push(s.last()) =~= s.remove(i));
    }
}

} // verus!
