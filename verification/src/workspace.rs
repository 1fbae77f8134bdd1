//! The list of workspaces.
//!
//! Workspaces are numbered from zero, at least one exists at all times, and
//! one of them is active. Asking for a workspace beyond the end creates those
//! in between.

use crate::params::{Gaps, LayoutParams};
use crate::text;
use crate::tiling::TilingLayout;
use vstd::prelude::*;

verus! {

/// Identity of a workspace. It is given once and never again, while the
/// position of a workspace in the list changes when an earlier one goes.
#[derive(Debug, Clone, Copy, PartialEq, Eq, Structural, Hash)]
pub struct WorkspaceId(pub u64);

/// A workspace: its name and its tiling order.
#[derive(Debug)]
pub struct Workspace {
    pub id: WorkspaceId,
    pub name: String,
    pub tiling: TilingLayout,
}

impl Workspace {
    /// Whether this is a new workspace with the given identity, name and gaps.
    pub open spec fn is_fresh(self, id: int, name: Seq<char>, gaps: Gaps) -> bool {
        &&& self.id.0 == id
        &&& self.name@ == name
        &&& self.tiling.order@ == Seq::<u64>::empty()
        &&& self.tiling.params == LayoutParams::fresh(gaps)
    }

    fn new(id: WorkspaceId, name: String, gaps: Gaps) -> (w: Workspace)
        ensures
            w.is_fresh(id.0 as int, name@, gaps),
    {
        let mut tiling = TilingLayout::default();
        tiling.params.gaps = gaps;
        Workspace { id, name, tiling }
    }
}

/// The workspaces, in order.
#[derive(Debug)]
pub struct WorkspaceSet {
    pub workspaces: Vec<Workspace>,
    pub active: usize,
    pub next_id: u64,
    /// Gaps that every new workspace starts with.
    pub gaps: Gaps,
}

impl Default for WorkspaceSet {
    fn default() -> (s: WorkspaceSet)
        ensures
            s.wf(),
            s.is_initial(Gaps { inner: 6, outer: 10 }),
    {
        let gaps = Gaps { inner: 6, outer: 10 };
        let mut workspaces: Vec<Workspace> = Vec::new();
        workspaces.push(Workspace::new(WorkspaceId(0), text::to_decimal(1), gaps));
        WorkspaceSet { workspaces, active: 0, next_id: 1, gaps }
    }
}

impl WorkspaceSet {
    /// There is one workspace, it is empty, and it is the active one.
    pub open spec fn is_initial(self, gaps: Gaps) -> bool {
        &&& self.workspaces@.len() == 1
        &&& self.workspaces@[0].is_fresh(0, text::decimal(1), gaps)
        &&& self.active == 0
        &&& self.next_id == 1
        &&& self.gaps == gaps
    }

    /// There is a workspace, the active one is in the list, identities are
    /// distinct and have been given out before, and no tiling order lists a
    /// window twice.
    pub open spec fn wf(self) -> bool {
        &&& self.workspaces@.len() > 0
        &&& self.active < self.workspaces@.len()
        &&& forall|i: int|
            0 <= i < self.workspaces@.len() ==> (#[trigger] self.workspaces@[i]).id.0 < self.next_id
                && self.workspaces@[i].tiling.wf()
        &&& forall|i: int, j: int|
            0 <= i < j < self.workspaces@.len() ==> (#[trigger] self.workspaces@[i]).id != (
            #[trigger] self.workspaces@[j]).id
    }

    /// Whether `later` is this list grown to `len` workspaces: the old ones
    /// are as they were, the new ones are empty, named by their number and
    /// have the configured gaps.
    pub open spec fn grown(self, later: WorkspaceSet, len: int) -> bool {
        let before = self.workspaces@.len() as int;
        let added = if len > before {
            len - before
        } else {
            0
        };
        &&& later.workspaces@.len() == before + added
        &&& later.next_id == self.next_id + added
        &&& later.gaps == self.gaps
        &&& forall|i: int|
            0 <= i < before ==> #[trigger] later.workspaces@[i] == self.workspaces@[i]
        &&& forall|i: int|
            before <= i < before + added ==> (#[trigger] later.workspaces@[i]).is_fresh(
                self.next_id + (i - before),
                text::decimal((i + 1) as nat),
                self.gaps,
            )
    }

    /// Whether `later` is this list with an empty workspace of the given name
    /// at its end.
    pub open spec fn appended(self, later: WorkspaceSet, name: Seq<char>) -> bool {
        let n = self.workspaces@.len() as int;
        &&& later.workspaces@.len() == n + 1
        &&& forall|i: int| 0 <= i < n ==> #[trigger] later.workspaces@[i] == self.workspaces@[i]
        &&& later.workspaces@[n].is_fresh(self.next_id as int, name, self.gaps)
        &&& later.next_id == self.next_id + 1
        &&& later.active == self.active
        &&& later.gaps == self.gaps
    }

    /// Growing to `len` workspaces leaves room for their identities.
    pub open spec fn can_grow(self, len: int) -> bool {
        &&& len <= usize::MAX
        &&& len > self.workspaces@.len() ==> self.next_id + (len - self.workspaces@.len())
            <= u64::MAX
    }

    /// Whether growing to `len` workspaces leaves room for their identities.
    pub fn has_room_for(&self, len: usize) -> (r: bool)
        ensures
            r == self.can_grow(len as int),
    {
        let n: usize = self.workspaces.len();
        len <= n || (len - n) as u64 <= u64::MAX - self.next_id
    }

    /// Number of workspaces.
    pub fn len(&self) -> (n: usize)
        ensures
            n == self.workspaces@.len(),
    {
        self.workspaces.len()
    }

    /// There is always a workspace.
    pub fn is_empty(&self) -> (r: bool)
        requires
            self.wf(),
        ensures
            r == (self.workspaces@.len() == 0),
            !r,
    {
        false
    }

    /// Position of the active workspace.
    pub fn active_index(&self) -> (i: usize)
        ensures
            i == self.active,
    {
        self.active
    }

    /// The active workspace.
    pub fn active(&self) -> (w: &Workspace)
        requires
            self.wf(),
        ensures
            *w == self.workspaces@[self.active as int],
    {
        &self.workspaces[self.active]
    }

    /// The active workspace, to be changed.
    pub fn active_mut(&mut self) -> (w: &mut Workspace)
        requires
            old(self).wf(),
        ensures
            *w == old(self).workspaces@[old(self).active as int],
            final(self).workspaces@ == old(self).workspaces@.update(
                old(self).active as int,
                *final(w),
            ),
            final(self).active == old(self).active,
            final(self).next_id == old(self).next_id,
            final(self).gaps == old(self).gaps,
    {
        &mut self.workspaces[self.active]
    }

    /// The workspace at a position.
    pub fn get(&self, idx: usize) -> (w: Option<&Workspace>)
        ensures
            w is Some <==> idx < self.workspaces@.len(),
            w is Some ==> *w->0 == self.workspaces@[idx as int],
    {
        if idx < self.workspaces.len() {
            Some(&self.workspaces[idx])
        } else {
            None
        }
    }

    /// The workspace at a position, to be changed.
    pub fn get_mut(&mut self, idx: usize) -> (w: Option<&mut Workspace>)
        ensures
            w is Some <==> idx < old(self).workspaces@.len(),
            w matches Some(ws) ==> *ws == old(self).workspaces@[idx as int]
                && final(self).workspaces@ == old(self).workspaces@.update(
                idx as int,
                *final(ws),
            ),
            w is None ==> final(self).workspaces@ == old(self).workspaces@,
            final(self).active == old(self).active,
            final(self).next_id == old(self).next_id,
            final(self).gaps == old(self).gaps,
    {
        if idx < self.workspaces.len() {
            Some(&mut self.workspaces[idx])
        } else {
            None
        }
    }

    /// The workspaces in order.
    pub fn iter(&self) -> (w: &[Workspace])
        ensures
            w@ == self.workspaces@,
    {
        self.workspaces.as_slice()
    }

    /// The workspaces in order, to be changed.
    pub fn iter_mut(&mut self) -> (w: &mut [Workspace])
        ensures
            w@ == old(self).workspaces@,
            final(self).workspaces@ == final(w)@,
            final(self).active == old(self).active,
            final(self).next_id == old(self).next_id,
            final(self).gaps == old(self).gaps,
    {
        self.workspaces.as_mut_slice()
    }

    /// Position of the workspace with the given identity.
    pub fn index_of(&self, id: WorkspaceId) -> (r: Option<usize>)
        ensures
            r is None <==> forall|i: int|
                0 <= i < self.workspaces@.len() ==> (#[trigger] self.workspaces@[i]).id != id,
            r is Some ==> r->0 < self.workspaces@.len() && self.workspaces@[r->0 as int].id == id
                && forall|i: int|
                0 <= i < r->0 ==> (#[trigger] self.workspaces@[i]).id != id,
    {
        let mut i: usize = 0;
        while i < self.workspaces.len()
            invariant
                i <= self.workspaces@.len(),
                forall|k: int| 0 <= k < i ==> (#[trigger] self.workspaces@[k]).id != id,
            decreases self.workspaces@.len() - i,
        {
            if self.workspaces[i].id == id {
                return Some(i);
            }
            i = i + 1;
        }
        None
    }

    /// Grows the list until there is a workspace at `idx`; the active one
    /// stays the same.
    pub fn ensure(&mut self, idx: usize)
        requires
            old(self).wf(),
            old(self).can_grow(idx + 1),
        ensures
            final(self).wf(),
            old(self).grown(*final(self), idx + 1),
            final(self).active == old(self).active,
    {
        self.ensure_len(idx);
    }

    fn ensure_len(&mut self, idx: usize)
        requires
            old(self).wf(),
            old(self).can_grow(idx + 1),
        ensures
            final(self).wf(),
            old(self).grown(*final(self), idx + 1),
            final(self).active == old(self).active,
    {
        let ghost start = *self;
        while self.workspaces.len() <= idx
            invariant
                start == *old(self),
                start.wf(),
                start.can_grow(idx + 1),
                self.wf(),
                self.active == start.active,
                self.workspaces@.len() <= idx + 1 || self.workspaces@.len()
                    == start.workspaces@.len(),
                start.grown(*self, self.workspaces@.len() as int),
            decreases idx + 1 - self.workspaces@.len(),
        {
            let n: usize = self.workspaces.len() + 1;
            let name: String = text::to_decimal(n as u64);
            let id = WorkspaceId(self.next_id);
            self.next_id = self.next_id + 1;
            self.workspaces.push(Workspace::new(id, name, self.gaps));
        }
    }

    /// Makes the workspace at `idx` the active one, creating it if need be.
    /// Says whether another workspace is active now.
    pub fn switch_to(&mut self, idx: usize) -> (changed: bool)
        requires
            old(self).wf(),
            old(self).can_grow(idx + 1),
        ensures
            final(self).wf(),
            old(self).grown(*final(self), idx + 1),
            final(self).active == idx,
            changed == (old(self).active != idx),
    {
        self.ensure_len(idx);
        if self.active == idx {
            return false;
        }
        self.active = idx;
        true
    }

    /// Appends an empty workspace and says where it is. Without a name it is
    /// named by its number.
    pub fn create(&mut self, name: Option<String>) -> (idx: usize)
        requires
            old(self).wf(),
            old(self).can_grow(old(self).workspaces@.len() as int + 1),
        ensures
            final(self).wf(),
            idx == old(self).workspaces@.len(),
            old(self).appended(
                *final(self),
                match name {
                    Some(n) => n@,
                    None => text::decimal((idx + 1) as nat),
                },
            ),
    {
        let idx: usize = self.workspaces.len();
        let name: String = match name {
            Some(name) => name,
            None => text::to_decimal((idx + 1) as u64),
        };
        let id = WorkspaceId(self.next_id);
        self.next_id = self.next_id + 1;
        self.workspaces.push(Workspace::new(id, name, self.gaps));
        idx
    }

    /// Whether the workspace at `idx` may go: it exists, is not the active one
    /// and is not the last one left.
    pub open spec fn can_remove(self, idx: int) -> bool {
        self.workspaces@.len() > 1 && 0 <= idx < self.workspaces@.len() && idx != self.active
    }

    /// Removes the workspace at `idx`, unless it is the active one or the last
    /// one left. Says whether it went.
    pub fn remove(&mut self, idx: usize) -> (removed: bool)
        requires
            old(self).wf(),
        ensures
            final(self).wf(),
            removed == old(self).can_remove(idx as int),
            !removed ==> *final(self) == *old(self),
            removed ==> final(self).workspaces@ == old(self).workspaces@.remove(idx as int),
            removed ==> final(self).active == (if old(self).active > idx {
                old(self).active - 1
            } else {
                old(self).active as int
            }),
            final(self).next_id == old(self).next_id,
            final(self).gaps == old(self).gaps,
            final(self).workspaces@[final(self).active as int]
                == old(self).workspaces@[old(self).active as int],
    {
        if self.workspaces.len() <= 1 || idx >= self.workspaces.len() || idx == self.active {
            return false;
        }
        self.workspaces.remove(idx);
        if self.active > idx {
            self.active = self.active - 1;
        }
        true
    }

    /// Renames the workspace at `idx`, if there is one.
    pub fn rename(&mut self, idx: usize, name: String) -> (renamed: bool)
        requires
            old(self).wf(),
        ensures
            final(self).wf(),
            renamed == (idx < old(self).workspaces@.len()),
            !renamed ==> *final(self) == *old(self),
            final(self).workspaces@.len() == old(self).workspaces@.len(),
            renamed ==> final(self).workspaces@[idx as int] == (Workspace {
                name,
                ..old(self).workspaces@[idx as int]
            }),
            forall|i: int|
                0 <= i < old(self).workspaces@.len() && i != idx
                    ==> #[trigger] final(self).workspaces@[i] == old(self).workspaces@[i],
            final(self).active == old(self).active,
            final(self).next_id == old(self).next_id,
            final(self).gaps == old(self).gaps,
    {
        if idx < self.workspaces.len() {
            self.workspaces[idx].name = name;
            true
        } else {
            false
        }
    }

    /// Sets the gaps of every workspace, and of those to come.
    pub fn apply_gaps(&mut self, gaps: Gaps)
        requires
            old(self).wf(),
        ensures
            final(self).wf(),
            final(self).gaps == gaps,
            final(self).active == old(self).active,
            final(self).next_id == old(self).next_id,
            final(self).workspaces@.len() == old(self).workspaces@.len(),
            forall|i: int|
                0 <= i < old(self).workspaces@.len() ==> {
                    let now = #[trigger] final(self).workspaces@[i];
                    let before = old(self).workspaces@[i];
                    &&& now.id == before.id
                    &&& now.name == before.name
                    &&& now.tiling.order == before.tiling.order
                    &&& now.tiling.params == (LayoutParams { gaps, ..before.tiling.params })
                },
    {
        self.gaps = gaps;
        let mut i: usize = 0;
        let n: usize = self.workspaces.len();
        while i < n
            invariant
                i <= n,
                n == self.workspaces@.len(),
                n == old(self).workspaces@.len(),
                old(self).wf(),
                self.gaps == gaps,
                self.active == old(self).active,
                self.next_id == old(self).next_id,
                forall|k: int|
                    i <= k < n ==> #[trigger] self.workspaces@[k] == old(self).workspaces@[k],
                forall|k: int|
                    0 <= k < i ==> {
                        let now = #[trigger] self.workspaces@[k];
                        let before = old(self).workspaces@[k];
                        &&& now.id == before.id
                        &&& now.name == before.name
                        &&& now.tiling.order == before.tiling.order
                        &&& now.tiling.params == (LayoutParams { gaps, ..before.tiling.params })
                    },
            decreases n - i,
        {
            self.workspaces[i].tiling.params.gaps = gaps;
            i = i + 1;
        }
    }
}

/// A workspace that is there before and after another one goes keeps its
/// identity, its name and its windows; only its position may move down by one.
pub proof fn removal_keeps_the_others(before: WorkspaceSet, idx: int, i: int)
    requires
        before.wf(),
        before.can_remove(idx),
        0 <= i < before.workspaces@.len(),
        i != idx,
    ensures
        before.workspaces@.remove(idx)[if i < idx {
            i
        } else {
            i - 1
        }] == before.workspaces@[i],
{
}

/// Whether `later` comes out of `before` by growing the list, by appending a
/// workspace, by removing one, or by something that keeps every identity in its
/// place.
pub open spec fn comes_from(before: WorkspaceSet, later: WorkspaceSet) -> bool {
    ||| exists|len: int| #[trigger] before.grown(later, len)
    ||| exists|name: Seq<char>| #[trigger] before.appended(later, name)
    ||| {
        &&& later.next_id == before.next_id
        &&& exists|idx: int|
            #[trigger] before.can_remove(idx) && later.workspaces@ == before.workspaces@.remove(idx)
    }
    ||| {
        &&& later.next_id == before.next_id
        &&& later.workspaces@.len() == before.workspaces@.len()
        &&& forall|i: int|
            0 <= i < before.workspaces@.len() ==> (#[trigger] later.workspaces@[i]).id
                == before.workspaces@[i].id
    }
}

/// Whether a workspace of the list has the identity.
pub open spec fn has_id(set: WorkspaceSet, id: WorkspaceId) -> bool {
    exists|i: int| 0 <= i < set.workspaces@.len() && (#[trigger] set.workspaces@[i]).id == id
}

/// An identity that was given out before and that no workspace has stays
/// unused.
proof fn lemma_unused_stays_unused(before: WorkspaceSet, later: WorkspaceSet, id: WorkspaceId)
    requires
        comes_from(before, later),
        id.0 < before.next_id,
        !has_id(before, id),
    ensures
        id.0 < later.next_id,
        !has_id(later, id),
{
    if has_id(later, id) {
        let i = choose|i: int|
            0 <= i < later.workspaces@.len() && (#[trigger] later.workspaces@[i]).id == id;
        let was = before.workspaces@;
        if exists|idx: int|
            #[trigger] before.can_remove(idx) && later.workspaces@ == was.remove(idx) {
            let idx = choose|idx: int|
                #[trigger] before.can_remove(idx) && later.workspaces@ == was.remove(idx);
            let back = if i < idx {
                i
            } else {
                i + 1
            };
            assert(was[back].id == id);
        } else if i < was.len() {
            assert(was[i].id == id);
        }
        assert(false);
    }
}

/// Identities are never given twice: however the list changes from one moment
/// to the next, an identity that has left it never comes back.
pub proof fn identities_are_never_reused(history: Seq<WorkspaceSet>, id: WorkspaceId, a: int, b: int, c: int)
    requires
        0 <= a <= b <= c < history.len(),
        history[a].wf(),
        forall|i: int|
            0 < i < history.len() ==> comes_from(history[i - 1], #[trigger] history[i]),
        has_id(history[a], id),
        !has_id(history[b], id),
    ensures
        !has_id(history[c], id),
    decreases c,
{
    lemma_given_out(history, id, a, b);
    if c > b {
        identities_are_never_reused(history, id, a, b, c - 1);
        lemma_given_out(history, id, a, c - 1);
        lemma_unused_stays_unused(history[c - 1], history[c], id);
    }
}

/// An identity that a workspace had counts as given out ever after.
proof fn lemma_given_out(history: Seq<WorkspaceSet>, id: WorkspaceId, a: int, b: int)
    requires
        0 <= a <= b < history.len(),
        history[a].wf(),
        forall|i: int|
            0 < i < history.len() ==> comes_from(history[i - 1], #[trigger] history[i]),
        has_id(history[a], id),
    ensures
        id.0 < history[b].next_id,
    decreases b,
{
    if b > a {
        lemma_given_out(history, id, a, b - 1);
        assert(comes_from(history[b - 1], history[b]));
    }
}

/// A list that grows keeps its workspaces where they are. The new ones are empty,
/// count on from the number of those there were, have the configured gaps and
/// identities that no workspace had before.
pub proof fn new_workspaces_are_empty_and_numbered(
    before: WorkspaceSet,
    later: WorkspaceSet,
    len: int,
    i: int,
)
    requires
        before.wf(),
        before.grown(later, len),
        0 <= i < later.workspaces@.len(),
    ensures
        later.workspaces@.len() >= len,
        later.workspaces@.len() == len || later.workspaces@.len() == before.workspaces@.len(),
        i < before.workspaces@.len() ==> later.workspaces@[i] == before.workspaces@[i],
        i >= before.workspaces@.len() ==> {
            let new = later.workspaces@[i];
            &&& new.name@ == text::decimal((i + 1) as nat)
            &&& new.tiling.order@.len() == 0
            &&& new.tiling.params.gaps == before.gaps
            &&& !has_id(before, new.id)
            &&& new.id.0 < later.next_id
        },
        later.next_id - before.next_id == later.workspaces@.len() - before.workspaces@.len(),
        later.gaps == before.gaps,
{
    if i >= before.workspaces@.len() {
        let new = later.workspaces@[i];
        if has_id(before, new.id) {
            let k = choose|k: int|
                0 <= k < before.workspaces@.len() && (#[trigger] before.workspaces@[k]).id
                    == new.id;
            assert(before.workspaces@[k].id.0 < before.next_id);
        }
    }
}

/// A workspace that is appended is empty, has the name that was asked for, and an
/// identity that no workspace had before; all else stays.
pub proof fn appended_workspace_is_empty(
    before: WorkspaceSet,
    later: WorkspaceSet,
    name: Seq<char>,
)
    requires
        before.wf(),
        before.appended(later, name),
    ensures
        ({
            let n = before.workspaces@.len() as int;
            let new = later.workspaces@[n];
            &&& later.workspaces@.len() == n + 1
            &&& later.workspaces@.take(n) == before.workspaces@
            &&& new.name@ == name
            &&& new.tiling.order@.len() == 0
            &&& new.tiling.params.gaps == before.gaps
            &&& !has_id(before, new.id)
            &&& later.active == before.active
        }),
{
    let n = before.workspaces@.len() as int;
    let new = later.workspaces@[n];
    assert(later.workspaces@.take(n) =~= before.workspaces@);
    if has_id(before, new.id) {
        let k = choose|k: int|
            0 <= k < before.workspaces@.len() && (#[trigger] before.workspaces@[k]).id == new.id;
        assert(before.workspaces@[k].id.0 < before.next_id);
    }
}

/// Every workspace but the active one may go.
pub proof fn every_other_workspace_may_go(set: WorkspaceSet, idx: int)
    requires
        set.wf(),
    ensures
        set.can_remove(idx) <==> 0 <= idx < set.workspaces@.len() && idx != set.active,
{
}

/// Growing is possible whenever the identities do not run out, and growing to
/// what there is always is.
pub proof fn lists_grow_while_identities_last(set: WorkspaceSet, len: int)
    ensures
        len <= set.workspaces@.len() <= usize::MAX ==> set.can_grow(len),
        set.workspaces@.len() < len <= usize::MAX ==> (set.can_grow(len) <==> u64::MAX
            - set.next_id >= len - set.workspaces@.len()),
{
}

} // verus!
