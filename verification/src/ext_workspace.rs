//! The workspaces as clients see them, and how what each client knows follows
//! the list of workspaces.

use crate::text;
use crate::workspace::{Workspace, WorkspaceId, WorkspaceSet};
use vstd::prelude::*;

verus! {

/// A workspace as clients are told about it.
#[derive(Debug)]
pub struct WorkspaceSnapshot {
    pub id: WorkspaceId,
    pub name: String,
    pub active: bool,
}

/// Whether a snapshot shows a workspace; `active` is the identity of the
/// active one.
pub open spec fn shows(snapshot: WorkspaceSnapshot, ws: Workspace, active: WorkspaceId) -> bool {
    &&& snapshot.id == ws.id
    &&& snapshot.name@ == ws.name@
    &&& snapshot.active == (ws.id == active)
}

/// The workspaces as they are now.
pub fn snapshot(set: &WorkspaceSet) -> (r: Vec<WorkspaceSnapshot>)
    requires
        set.wf(),
    ensures
        r@.len() == set.workspaces@.len(),
        forall|i: int|
            0 <= i < r@.len() ==> shows(
                #[trigger] r@[i],
                set.workspaces@[i],
                set.workspaces@[set.active as int].id,
            ),
{
    let mut r: Vec<WorkspaceSnapshot> = Vec::new();
    let active: WorkspaceId = set.active().id;
    let mut i: usize = 0;
    while i < set.workspaces.len()
        invariant
            i <= set.workspaces@.len(),
            r@.len() == i,
            active == set.workspaces@[set.active as int].id,
            forall|k: int|
                0 <= k < i ==> shows(#[trigger] r@[k], set.workspaces@[k], active),
        decreases set.workspaces@.len() - i,
    {
        let ws: &Workspace = &set.workspaces[i];
        let name: Vec<char> = text::chars_of(ws.name.as_str());
        r.push(
            WorkspaceSnapshot {
                id: ws.id,
                name: text::string_of(name.as_slice()),
                active: ws.id == active,
            },
        );
        i = i + 1;
    }
    r
}

/// In a snapshot exactly the active workspace is marked as active.
pub proof fn one_workspace_is_active(set: WorkspaceSet, snapshot: Seq<WorkspaceSnapshot>, i: int)
    requires
        set.wf(),
        snapshot.len() == set.workspaces@.len(),
        forall|k: int|
            0 <= k < snapshot.len() ==> shows(
                #[trigger] snapshot[k],
                set.workspaces@[k],
                set.workspaces@[set.active as int].id,
            ),
        0 <= i < snapshot.len(),
    ensures
        snapshot[i].active == (i == set.active),
{
    let active = set.active as int;
    assert(shows(snapshot[i], set.workspaces@[i], set.workspaces@[active].id));
    if i < active {
        assert(set.workspaces@[i].id != set.workspaces@[active].id);
    } else if active < i {
        assert(set.workspaces@[active].id != set.workspaces@[i].id);
    }
}

/// Something to tell a client.
#[derive(Debug, Clone, Copy, PartialEq, Eq, Structural)]
pub enum WorkspaceEvent {
    /// A workspace is gone.
    Removed { id: WorkspaceId },
    /// A workspace has appeared in the group; it can be activated and removed.
    Announced { id: WorkspaceId },
    /// The name of a workspace, which is that of the snapshot.
    Name { id: WorkspaceId },
    /// The position of a workspace among the others.
    Coordinates { id: WorkspaceId, index: u32 },
    /// Whether a workspace is active.
    State { id: WorkspaceId, active: bool },
    /// The changes are complete.
    Done,
}

/// Identities of the workspaces of a snapshot.
pub open spec fn ids(snapshot: Seq<WorkspaceSnapshot>) -> Seq<WorkspaceId> {
    Seq::new(snapshot.len(), |i: int| snapshot[i].id)
}

/// The predicate "is one of these".
pub open spec fn among(list: Seq<WorkspaceId>) -> spec_fn(WorkspaceId) -> bool {
    |id: WorkspaceId| list.contains(id)
}

/// The events for known workspaces that are gone, in the order of the list.
pub open spec fn removals(known: Seq<WorkspaceId>, existing: Seq<WorkspaceId>) -> Seq<
    WorkspaceEvent,
>
    decreases known.len(),
{
    if known.len() == 0 {
        Seq::empty()
    } else {
        let before = removals(known.drop_last(), existing);
        if existing.contains(known.last()) {
            before
        } else {
            before.push(WorkspaceEvent::Removed { id: known.last() })
        }
    }
}

/// What a client knows after the first `n` workspaces have been told. A
/// workspace in `refused` could not be given to the client.
pub open spec fn told(
    kept: Seq<WorkspaceId>,
    existing: Seq<WorkspaceId>,
    refused: Seq<WorkspaceId>,
    n: int,
) -> Seq<WorkspaceId>
    decreases n,
{
    if n <= 0 {
        kept
    } else {
        let before = told(kept, existing, refused, n - 1);
        let id = existing[n - 1];
        if before.contains(id) || refused.contains(id) {
            before
        } else {
            before.push(id)
        }
    }
}

/// The events that tell a client about the first `n` workspaces: it learns of
/// new ones, and of every one the name, the position and the state.
pub open spec fn tellings(
    kept: Seq<WorkspaceId>,
    snapshot: Seq<WorkspaceSnapshot>,
    refused: Seq<WorkspaceId>,
    n: int,
) -> Seq<WorkspaceEvent>
    decreases n,
{
    if n <= 0 {
        Seq::empty()
    } else {
        let before = tellings(kept, snapshot, refused, n - 1);
        let known = told(kept, ids(snapshot), refused, n - 1);
        let ws = snapshot[n - 1];
        let facts = seq![
            WorkspaceEvent::Name { id: ws.id },
            WorkspaceEvent::Coordinates { id: ws.id, index: (n - 1) as u32 },
            WorkspaceEvent::State { id: ws.id, active: ws.active },
        ];
        if known.contains(ws.id) {
            before + facts
        } else if refused.contains(ws.id) {
            before
        } else {
            before + (seq![WorkspaceEvent::Announced { id: ws.id }] + facts)
        }
    }
}

fn contains(list: &[WorkspaceId], id: WorkspaceId) -> (r: bool)
    ensures
        r == list@.contains(id),
{
    let mut i: usize = 0;
    while i < list.len()
        invariant
            i <= list@.len(),
            forall|j: int| 0 <= j < i ==> list@[j] != id,
        decreases list@.len() - i,
    {
        if list[i] == id {
            assert(list@[i as int] == id);
            return true;
        }
        i = i + 1;
    }
    false
}

fn ids_of(snapshot: &[WorkspaceSnapshot]) -> (r: Vec<WorkspaceId>)
    ensures
        r@ == ids(snapshot@),
{
    let mut r: Vec<WorkspaceId> = Vec::new();
    let mut i: usize = 0;
    while i < snapshot.len()
        invariant
            i <= snapshot@.len(),
            r@ =~= ids(snapshot@.take(i as int)),
        decreases snapshot@.len() - i,
    {
        r.push(snapshot[i].id);
        i = i + 1;
    }
    assert(snapshot@.take(i as int) =~= snapshot@);
    r
}

/// A client and the workspaces that it knows.
#[derive(Debug)]
pub struct ClientState {
    /// Identity of the client's manager object.
    pub manager: u64,
    pub workspaces: Vec<WorkspaceId>,
}

/// Whether a client has been brought up to date with a snapshot: what it knows
/// before and after, and what it is told.
pub open spec fn told_about(
    before: ClientState,
    after: ClientState,
    snapshot: Seq<WorkspaceSnapshot>,
    connected: bool,
    refused: Seq<WorkspaceId>,
    events: Seq<WorkspaceEvent>,
) -> bool {
    let was = before.workspaces@;
    let existing = ids(snapshot);
    let kept = was.filter(among(existing));
    let n = snapshot.len() as int;
    &&& after.manager == before.manager
    &&& after.workspaces@ == (if connected {
        told(kept, existing, refused, n)
    } else {
        kept
    })
    &&& events == (if connected {
        removals(was, existing) + tellings(kept, snapshot, refused, n) + seq![WorkspaceEvent::Done]
    } else {
        removals(was, existing)
    })
}

impl ClientState {
    /// The workspaces of a snapshot that the client has no object for.
    pub fn missing(&self, snapshot: &[WorkspaceSnapshot]) -> (r: Vec<WorkspaceId>)
        ensures
            r@ == ids(snapshot@).filter(|id: WorkspaceId| !self.workspaces@.contains(id)),
    {
        let mut r: Vec<WorkspaceId> = Vec::new();
        let ghost wanted = |id: WorkspaceId| !self.workspaces@.contains(id);
        let mut i: usize = 0;
        proof {
            reveal(Seq::filter);
            assert(ids(snapshot@).take(0).filter(wanted) =~= Seq::<WorkspaceId>::empty());
        }
        while i < snapshot.len()
            invariant
                i <= snapshot@.len(),
                wanted == (|id: WorkspaceId| !self.workspaces@.contains(id)),
                r@ == ids(snapshot@).take(i as int).filter(wanted),
            decreases snapshot@.len() - i,
        {
            let id: WorkspaceId = snapshot[i].id;
            let ghost next = ids(snapshot@).take(i + 1);
            proof {
                reveal(Seq::filter);
                assert(next.drop_last() =~= ids(snapshot@).take(i as int));
                assert(next.last() == id);
            }
            if !contains(self.workspaces.as_slice(), id) {
                r.push(id);
            }
            i = i + 1;
        }
        assert(ids(snapshot@).take(i as int) =~= ids(snapshot@));
        r
    }

    fn drop_removed(&mut self, existing: &[WorkspaceId]) -> (events: Vec<WorkspaceEvent>)
        ensures
            final(self).workspaces@ == old(self).workspaces@.filter(among(existing@)),
            events@ == removals(old(self).workspaces@, existing@),
            final(self).manager == old(self).manager,
    {
        let mut kept: Vec<WorkspaceId> = Vec::new();
        let mut events: Vec<WorkspaceEvent> = Vec::new();
        let ghost all = self.workspaces@;
        let ghost keep = among(existing@);
        let mut i: usize = 0;
        proof {
            reveal(Seq::filter);
            assert(all.take(0).filter(keep) =~= Seq::<WorkspaceId>::empty());
        }
        while i < self.workspaces.len()
            invariant
                i <= all.len(),
                all == self.workspaces@,
                keep == among(existing@),
                kept@ == all.take(i as int).filter(keep),
                events@ == removals(all.take(i as int), existing@),
            decreases all.len() - i,
        {
            let id: WorkspaceId = self.workspaces[i];
            let ghost next = all.take(i + 1);
            proof {
                reveal(Seq::filter);
                assert(next.drop_last() =~= all.take(i as int));
                assert(next.last() == id);
            }
            if contains(existing, id) {
                kept.push(id);
            } else {
                events.push(WorkspaceEvent::Removed { id });
            }
            i = i + 1;
        }
        assert(all.take(i as int) =~= all);
        self.workspaces = kept;
        events
    }

    /// Brings a client up to date. A client that is gone is told no more than
    /// the removals. Workspaces in `refused` could not be given to the client.
    pub fn sync(
        &mut self,
        snapshot: &[WorkspaceSnapshot],
        connected: bool,
        refused: &[WorkspaceId],
    ) -> (events: Vec<WorkspaceEvent>)
        requires
            snapshot@.len() <= u32::MAX,
        ensures
            told_about(*old(self), *final(self), snapshot@, connected, refused@, events@),
    {
        let existing: Vec<WorkspaceId> = ids_of(snapshot);
        let mut events: Vec<WorkspaceEvent> = self.drop_removed(existing.as_slice());
        if !connected {
            return events;
        }
        let ghost removed = events@;
        let ghost kept = self.workspaces@;
        let mut i: usize = 0;
        assert(removed + tellings(kept, snapshot@, refused@, 0) =~= removed);
        while i < snapshot.len()
            invariant
                i <= snapshot@.len(),
                snapshot@.len() <= u32::MAX,
                existing@ == ids(snapshot@),
                self.manager == old(self).manager,
                self.workspaces@ == told(kept, existing@, refused@, i as int),
                events@ == removed + tellings(kept, snapshot@, refused@, i as int),
            decreases snapshot@.len() - i,
        {
            let id: WorkspaceId = snapshot[i].id;
            let known: bool = contains(self.workspaces.as_slice(), id);
            if known || !contains(refused, id) {
                if !known {
                    events.push(WorkspaceEvent::Announced { id });
                    self.workspaces.push(id);
                }
                events.push(WorkspaceEvent::Name { id });
                events.push(WorkspaceEvent::Coordinates { id, index: i as u32 });
                events.push(WorkspaceEvent::State { id, active: snapshot[i].active });
            }
            assert(events@ =~= removed + tellings(kept, snapshot@, refused@, i + 1));
            i = i + 1;
        }
        events.push(WorkspaceEvent::Done);
        assert(events@ =~= removed + tellings(kept, snapshot@, refused@, i as int) + seq![
            WorkspaceEvent::Done,
        ]);
        events
    }
}

/// How a client took what it was given.
#[derive(Debug)]
pub struct ClientAnswer {
    pub connected: bool,
    /// Workspaces that could not be given to the client.
    pub refused: Vec<WorkspaceId>,
}

/// Whether a snapshot shows all workspaces, in order.
pub open spec fn shows_all(shown: Seq<WorkspaceSnapshot>, set: WorkspaceSet) -> bool {
    &&& shown.len() == set.workspaces@.len()
    &&& forall|i: int|
        0 <= i < shown.len() ==> shows(
            #[trigger] shown[i],
            set.workspaces@[i],
            set.workspaces@[set.active as int].id,
        )
}

/// The clients that follow the workspaces.
#[derive(Debug)]
pub struct ExtWorkspaceState {
    pub clients: Vec<ClientState>,
}

impl Default for ExtWorkspaceState {
    fn default() -> (s: ExtWorkspaceState)
        ensures
            s.clients@.len() == 0,
    {
        ExtWorkspaceState { clients: Vec::new() }
    }
}

/// The managers of the clients, in order.
pub open spec fn managers(clients: Seq<ClientState>) -> Seq<u64> {
    Seq::new(clients.len(), |i: int| clients[i].manager)
}

impl ExtWorkspaceState {
    /// Takes up a new client, which knows no workspace yet. Returns its place
    /// among the clients.
    pub fn bind(&mut self, manager: u64) -> (idx: usize)
        ensures
            idx == old(self).clients@.len(),
            final(self).clients@.len() == idx + 1,
            final(self).clients@.take(idx as int) == old(self).clients@,
            final(self).clients@[idx as int].manager == manager,
            final(self).clients@[idx as int].workspaces@.len() == 0,
    {
        let idx: usize = self.clients.len();
        self.clients.push(ClientState { manager, workspaces: Vec::new() });
        assert(self.clients@.take(idx as int) =~= old(self).clients@);
        idx
    }

    /// Brings every client up to date with the workspaces: what each of them is
    /// told. `answers` says of each client whether it is connected, and which
    /// workspaces could not be given to it.
    pub fn sync_ext_workspace_state(
        &mut self,
        set: &WorkspaceSet,
        answers: &[ClientAnswer],
    ) -> (events: Vec<Vec<WorkspaceEvent>>)
        requires
            set.wf(),
            set.workspaces@.len() <= u32::MAX,
            answers@.len() == old(self).clients@.len(),
        ensures
            events@.len() == old(self).clients@.len(),
            final(self).clients@.len() == old(self).clients@.len(),
            exists|shown: Seq<WorkspaceSnapshot>|
                #[trigger] shows_all(shown, *set) && forall|i: int|
                    0 <= i < events@.len() ==> told_about(
                        old(self).clients@[i],
                        final(self).clients@[i],
                        shown,
                        answers@[i].connected,
                        answers@[i].refused@,
                        (#[trigger] events@[i])@,
                    ),
    {
        let shown: Vec<WorkspaceSnapshot> = snapshot(set);
        assert(shows_all(shown@, *set));
        let mut events: Vec<Vec<WorkspaceEvent>> = Vec::new();
        let n: usize = self.clients.len();
        let mut i: usize = 0;
        while i < n
            invariant
                i <= n,
                n == self.clients@.len(),
                n == old(self).clients@.len(),
                n == answers@.len(),
                shown@.len() <= u32::MAX,
                events@.len() == i,
                forall|k: int| i <= k < n ==> self.clients@[k] == old(self).clients@[k],
                forall|k: int|
                    0 <= k < i ==> told_about(
                        old(self).clients@[k],
                        self.clients@[k],
                        shown@,
                        answers@[k].connected,
                        answers@[k].refused@,
                        (#[trigger] events@[k])@,
                    ),
            decreases n - i,
        {
            let told: Vec<WorkspaceEvent> = self.clients[i].sync(
                shown.as_slice(),
                answers[i].connected,
                answers[i].refused.as_slice(),
            );
            events.push(told);
            i = i + 1;
        }
        events
    }

    /// Forgets a client that has stopped or whose manager object is gone.
    pub fn forget(&mut self, manager: u64)
        ensures
            final(self).clients@ == old(self).clients@.filter(
                |c: ClientState| c.manager != manager,
            ),
    {
        let mut kept: Vec<ClientState> = Vec::new();
        let ghost all = self.clients@;
        let ghost keep = |c: ClientState| c.manager != manager;
        let mut rest: Vec<ClientState> = Vec::new();
        std::mem::swap(&mut rest, &mut self.clients);
        proof {
            reveal(Seq::filter);
            assert(all.take(0).filter(keep) =~= Seq::<ClientState>::empty());
        }
        let n: usize = rest.len();
        let mut i: usize = 0;
        while i < n
            invariant
                i <= n,
                n == all.len(),
                keep == (|c: ClientState| c.manager != manager),
                rest@ == all.skip(i as int),
                kept@ == all.take(i as int).filter(keep),
            decreases n - i,
        {
            let ghost next = all.take(i + 1);
            let client: ClientState = rest.remove(0);
            proof {
                reveal(Seq::filter);
                assert(next.drop_last() =~= all.take(i as int));
                assert(next.last() == client);
                assert(rest@ =~= all.skip(i + 1));
            }
            if client.manager != manager {
                kept.push(client);
            }
            i = i + 1;
        }
        assert(all.take(i as int) =~= all);
        self.clients = kept;
    }
}

proof fn lemma_told(
    kept: Seq<WorkspaceId>,
    existing: Seq<WorkspaceId>,
    refused: Seq<WorkspaceId>,
    n: int,
    id: WorkspaceId,
)
    requires
        0 <= n <= existing.len(),
    ensures
        told(kept, existing, refused, n).contains(id) == (kept.contains(id) || (
        existing.take(n).contains(id) && !refused.contains(id))),
    decreases n,
{
    if n > 0 {
        lemma_told(kept, existing, refused, n - 1, id);
        let before = told(kept, existing, refused, n - 1);
        let after = told(kept, existing, refused, n);
        let w = existing[n - 1];
        let shorter = existing.take(n - 1);
        let longer = existing.take(n);
        assert(longer[n - 1] == w);
        if shorter.contains(id) {
            let i = choose|i: int| 0 <= i < shorter.len() && shorter[i] == id;
            assert(longer[i] == id);
        }
        if longer.contains(id) && id != w {
            let i = choose|i: int| 0 <= i < longer.len() && longer[i] == id;
            assert(shorter[i] == id);
        }
        if after != before {
            assert(after[before.len() as int] == w);
            if before.contains(id) {
                let i = choose|i: int| 0 <= i < before.len() && before[i] == id;
                assert(after[i] == id);
            }
            if after.contains(id) && id != w {
                let i = choose|i: int| 0 <= i < after.len() && after[i] == id;
                assert(before[i] == id);
            }
        }
    }
}

/// A client that could be told everything knows exactly the workspaces that
/// exist.
pub proof fn clients_know_the_existing_workspaces(
    was: Seq<WorkspaceId>,
    existing: Seq<WorkspaceId>,
    id: WorkspaceId,
)
    ensures
        told(
            was.filter(among(existing)),
            existing,
            Seq::empty(),
            existing.len() as int,
        ).contains(id) == existing.contains(id),
{
    let kept = was.filter(among(existing));
    lemma_told(kept, existing, Seq::empty(), existing.len() as int, id);
    assert(existing.take(existing.len() as int) =~= existing);
    if kept.contains(id) {
        let i = choose|i: int| 0 <= i < kept.len() && kept[i] == id;
        was.lemma_filter_pred(among(existing), i);
    }
}

/// Every workspace that a client knows after a sync is told its place in the
/// list, so that clients can order the workspaces.
pub proof fn positions_are_told(
    kept: Seq<WorkspaceId>,
    snapshot: Seq<WorkspaceSnapshot>,
    refused: Seq<WorkspaceId>,
    n: int,
    i: int,
)
    requires
        0 <= i < n <= snapshot.len(),
        told(kept, ids(snapshot), refused, n).contains(snapshot[i].id),
    ensures
        tellings(kept, snapshot, refused, n).contains(
            WorkspaceEvent::Coordinates { id: snapshot[i].id, index: i as u32 },
        ),
    decreases n,
{
    let event = WorkspaceEvent::Coordinates { id: snapshot[i].id, index: i as u32 };
    let all = tellings(kept, snapshot, refused, n);
    let before = tellings(kept, snapshot, refused, n - 1);
    lemma_told(kept, ids(snapshot), refused, n, snapshot[i].id);
    lemma_told(kept, ids(snapshot), refused, n - 1, snapshot[i].id);
    if i == n - 1 {
        let known = told(kept, ids(snapshot), refused, n - 1);
        if known.contains(snapshot[i].id) {
            assert(all[before.len() as int + 1] == event);
        } else {
            assert(all[before.len() as int + 2] == event);
        }
    } else {
        assert(ids(snapshot).take(n - 1)[i] == snapshot[i].id);
        positions_are_told(kept, snapshot, refused, n - 1, i);
        let k = choose|k: int| 0 <= k < before.len() && before[k] == event;
        assert(all[k] == event);
    }
}

/// A client is told that a workspace is gone if and only if it knows it and it
/// does not exist any more.
pub proof fn clients_are_told_what_is_gone(
    known: Seq<WorkspaceId>,
    existing: Seq<WorkspaceId>,
    event: WorkspaceEvent,
)
    ensures
        removals(known, existing).contains(event) <==> (event is Removed && known.contains(
            event->Removed_id,
        ) && !existing.contains(event->Removed_id)),
    decreases known.len(),
{
    if known.len() > 0 {
        let rest = known.drop_last();
        let last = known.last();
        clients_are_told_what_is_gone(rest, existing, event);
        let before = removals(rest, existing);
        let all = removals(known, existing);
        assert(known[known.len() - 1] == last);
        if all.contains(event) {
            let k = choose|k: int| 0 <= k < all.len() && all[k] == event;
            if k < before.len() {
                assert(before[k] == event);
                let i = choose|i: int| 0 <= i < rest.len() && rest[i] == event->Removed_id;
                assert(known[i] == event->Removed_id);
            }
        }
        if event is Removed && known.contains(event->Removed_id) && !existing.contains(
            event->Removed_id,
        ) {
            let i = choose|i: int| 0 <= i < known.len() && known[i] == event->Removed_id;
            if i < rest.len() {
                assert(rest[i] == event->Removed_id);
                assert(before.contains(event));
                let k = choose|k: int| 0 <= k < before.len() && before[k] == event;
                assert(all[k] == event);
            } else {
                assert(all[all.len() - 1] == event);
            }
        }
    }
}

/// Every workspace that a client knows after a sync is told its name, its place
/// in the list and whether it is active, in this order.
pub proof fn facts_are_told(
    kept: Seq<WorkspaceId>,
    snapshot: Seq<WorkspaceSnapshot>,
    refused: Seq<WorkspaceId>,
    n: int,
    i: int,
)
    requires
        0 <= i < n <= snapshot.len(),
        told(kept, ids(snapshot), refused, n).contains(snapshot[i].id),
    ensures
        exists|k: int|
            #![trigger tellings(kept, snapshot, refused, n)[k]]
            {
                let events = tellings(kept, snapshot, refused, n);
                let id = snapshot[i].id;
                &&& 0 <= k
                &&& k + 2 < events.len()
                &&& events[k] == (WorkspaceEvent::Name { id })
                &&& events[k + 1] == (WorkspaceEvent::Coordinates { id, index: i as u32 })
                &&& events[k + 2] == (WorkspaceEvent::State { id, active: snapshot[i].active })
            },
    decreases n,
{
    let id = snapshot[i].id;
    let all = tellings(kept, snapshot, refused, n);
    let before = tellings(kept, snapshot, refused, n - 1);
    lemma_told(kept, ids(snapshot), refused, n, id);
    lemma_told(kept, ids(snapshot), refused, n - 1, id);
    if i == n - 1 {
        let known = told(kept, ids(snapshot), refused, n - 1);
        let k: int = if known.contains(id) {
            before.len() as int
        } else {
            before.len() as int + 1
        };
        assert(all[k] == (WorkspaceEvent::Name { id }));
        assert(all[k + 1] == (WorkspaceEvent::Coordinates { id, index: i as u32 }));
        assert(all[k + 2] == (WorkspaceEvent::State { id, active: snapshot[i].active }));
    } else {
        assert(ids(snapshot).take(n - 1)[i] == id);
        facts_are_told(kept, snapshot, refused, n - 1, i);
        let k = choose|k: int|
            #![trigger before[k]]
            {
                &&& 0 <= k
                &&& k + 2 < before.len()
                &&& before[k] == (WorkspaceEvent::Name { id })
                &&& before[k + 1] == (WorkspaceEvent::Coordinates { id, index: i as u32 })
                &&& before[k + 2] == (WorkspaceEvent::State { id, active: snapshot[i].active })
            };
        assert(all[k] == before[k]);
        assert(all[k + 1] == before[k + 1]);
        assert(all[k + 2] == before[k + 2]);
    }
}

/// A workspace is announced to a client if and only if the client did not know
/// it, it exists, and it could be given to the client.
pub proof fn new_workspaces_are_announced(
    kept: Seq<WorkspaceId>,
    snapshot: Seq<WorkspaceSnapshot>,
    refused: Seq<WorkspaceId>,
    n: int,
    id: WorkspaceId,
)
    requires
        0 <= n <= snapshot.len(),
    ensures
        tellings(kept, snapshot, refused, n).contains(WorkspaceEvent::Announced { id })
            <==> !kept.contains(id) && !refused.contains(id) && ids(snapshot).take(n).contains(id),
    decreases n,
{
    let event = WorkspaceEvent::Announced { id };
    if n > 0 {
        new_workspaces_are_announced(kept, snapshot, refused, n - 1, id);
        let before = tellings(kept, snapshot, refused, n - 1);
        let all = tellings(kept, snapshot, refused, n);
        let list = ids(snapshot);
        let ws = snapshot[n - 1];
        let known = told(kept, list, refused, n - 1);
        lemma_told(kept, list, refused, n - 1, ws.id);
        assert(list.take(n).contains(id) <==> list.take(n - 1).contains(id) || ws.id == id) by {
            if list.take(n).contains(id) {
                let k = choose|k: int| 0 <= k < n && #[trigger] list.take(n)[k] == id;
                if k < n - 1 {
                    assert(list.take(n - 1)[k] == id);
                }
            }
            if list.take(n - 1).contains(id) {
                let k = choose|k: int| 0 <= k < n - 1 && #[trigger] list.take(n - 1)[k] == id;
                assert(list.take(n)[k] == id);
            }
            assert(list.take(n)[n - 1] == ws.id);
        }
        if before.contains(event) {
            let k = choose|k: int| 0 <= k < before.len() && before[k] == event;
            assert(all[k] == event);
        }
        if all.contains(event) {
            let k = choose|k: int| 0 <= k < all.len() && all[k] == event;
            if k < before.len() {
                assert(before[k] == event);
            }
        }
        if !known.contains(ws.id) && !refused.contains(ws.id) {
            assert(all[before.len() as int] == (WorkspaceEvent::Announced { id: ws.id }));
        }
    } else {
        assert(ids(snapshot).take(0).len() == 0);
    }
}

} // verus!
