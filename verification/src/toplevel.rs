//! The list of open windows that clients see, and how it follows the desktop.
//!
//! A window stays in the list while it is open, whatever workspace is active
//! and whether or not a scratchpad has stashed it away.

use crate::desktop;
use crate::desktop::Desktop;
use crate::scratchpad::{NamedScratchpad, NamedSlot};
use crate::text;
use crate::windows;
use crate::workspace::WorkspaceSet;
use vstd::prelude::*;

verus! {

/// A window as its client describes it.
#[derive(Debug)]
pub struct ToplevelInfo {
    pub window: u64,
    pub title: Option<String>,
    pub app_id: Option<String>,
}

/// An entry of the list: what clients were last told about a window.
#[derive(Debug)]
pub struct Toplevel {
    pub window: u64,
    pub title: String,
    pub app_id: String,
}

/// An entry of the list with its texts as characters.
pub ghost struct ToplevelView {
    pub window: u64,
    pub title: Seq<char>,
    pub app_id: Seq<char>,
}

impl View for Toplevel {
    type V = ToplevelView;

    open spec fn view(&self) -> ToplevelView {
        ToplevelView { window: self.window, title: self.title@, app_id: self.app_id@ }
    }
}

/// Something to tell the clients; the texts are those in the list.
#[derive(Debug, Clone, Copy, PartialEq, Eq, Structural)]
pub enum ToplevelEvent {
    /// A window has appeared, with its title and application id.
    Opened { window: u64 },
    /// A window is gone.
    Closed { window: u64 },
    /// The title has changed.
    Title { window: u64 },
    /// The application id has changed.
    AppId { window: u64 },
    /// The changes to a window are complete.
    Done { window: u64 },
}

/// The windows that named scratchpads hold.
pub open spec fn named_windows(named: Seq<NamedSlot>) -> Seq<u64>
    decreases named.len(),
{
    if named.len() == 0 {
        Seq::empty()
    } else {
        let before = named_windows(named.drop_last());
        match named.last().state {
            NamedScratchpad::Shown(w) => before.push(w),
            NamedScratchpad::Hidden(w) => before.push(w),
            NamedScratchpad::Pending { .. } => before,
        }
    }
}

/// The windows of all workspaces and scratchpads.
pub open spec fn spec_all_windows(desktop: Desktop) -> Seq<u64> {
    let workspaces = desktop.workspaces.workspaces@;
    let tiled = desktop::windows_but(workspaces, -1, workspaces.len() as int);
    let stashed = match desktop.scratchpad {
        Some(w) => seq![w],
        None => Seq::empty(),
    };
    tiled + stashed + named_windows(desktop.named@)
}

/// The windows of all workspaces and scratchpads.
pub fn all_windows(desktop: &Desktop) -> (r: Vec<u64>)
    ensures
        r@ == spec_all_windows(*desktop),
{
    let mut r: Vec<u64> = Vec::new();
    let mut i: usize = 0;
    let ghost workspaces = desktop.workspaces.workspaces@;
    while i < desktop.workspaces.workspaces.len()
        invariant
            i <= workspaces.len(),
            workspaces == desktop.workspaces.workspaces@,
            r@ == desktop::windows_but(workspaces, -1, i as int),
        decreases workspaces.len() - i,
    {
        desktop::append_ids(&mut r, desktop.workspaces.workspaces[i].tiling.windows());
        i = i + 1;
    }
    let ghost tiled = r@;
    if let Some(w) = desktop.scratchpad {
        r.push(w);
    }
    let ghost before = r@;
    let mut j: usize = 0;
    assert(before + named_windows(desktop.named@.take(0)) =~= r@);
    while j < desktop.named.len()
        invariant
            j <= desktop.named@.len(),
            r@ == before + named_windows(desktop.named@.take(j as int)),
        decreases desktop.named@.len() - j,
    {
        let ghost next = desktop.named@.take(j + 1);
        proof {
            assert(next.drop_last() =~= desktop.named@.take(j as int));
            assert(next.last() == desktop.named@[j as int]);
        }
        match &desktop.named[j].state {
            NamedScratchpad::Shown(w) => {
                r.push(*w);
            },
            NamedScratchpad::Hidden(w) => {
                r.push(*w);
            },
            NamedScratchpad::Pending { .. } => {},
        }
        assert(r@ =~= before + named_windows(next));
        j = j + 1;
    }
    assert(desktop.named@.take(j as int) =~= desktop.named@);
    assert(r@ =~= spec_all_windows(*desktop));
    r
}

/// The entries as views.
pub open spec fn views(list: Seq<Toplevel>) -> Seq<ToplevelView> {
    Seq::new(list.len(), |i: int| list[i]@)
}

/// Whether a description at `i` is the first one of a window.
pub open spec fn info_at(infos: Seq<ToplevelInfo>, window: u64, i: int) -> bool {
    &&& 0 <= i < infos.len()
    &&& infos[i].window == window
    &&& forall|j: int| 0 <= j < i ==> (#[trigger] infos[j]).window != window
}

/// Whether a window is alive, which is to say described.
pub open spec fn is_alive(infos: Seq<ToplevelInfo>, window: u64) -> bool {
    exists|i: int| info_at(infos, window, i)
}

/// What a window's client says, with empty texts for what it does not say.
pub open spec fn described(infos: Seq<ToplevelInfo>, window: u64) -> ToplevelView {
    let info = infos[choose|i: int| info_at(infos, window, i)];
    ToplevelView {
        window,
        title: text::text_view(info.title).unwrap_or(Seq::empty()),
        app_id: text::text_view(info.app_id).unwrap_or(Seq::empty()),
    }
}

/// Whether an entry at `i` is the first one of a window.
pub open spec fn entry_at(list: Seq<ToplevelView>, window: u64, i: int) -> bool {
    &&& 0 <= i < list.len()
    &&& list[i].window == window
    &&& forall|j: int| 0 <= j < i ==> (#[trigger] list[j]).window != window
}

/// The predicate "is open".
pub open spec fn open(infos: Seq<ToplevelInfo>, windows: Seq<u64>) -> spec_fn(ToplevelView) -> bool {
    |t: ToplevelView| is_alive(infos, t.window) && windows.contains(t.window)
}

/// The events for entries that are no longer open, in the order of the list.
pub open spec fn closings(
    list: Seq<ToplevelView>,
    infos: Seq<ToplevelInfo>,
    windows: Seq<u64>,
) -> Seq<ToplevelEvent>
    decreases list.len(),
{
    if list.len() == 0 {
        Seq::empty()
    } else {
        let before = closings(list.drop_last(), infos, windows);
        if open(infos, windows)(list.last()) {
            before
        } else {
            before.push(ToplevelEvent::Closed { window: list.last().window })
        }
    }
}

/// The list after a live window has been brought up to date.
pub open spec fn refreshed(list: Seq<ToplevelView>, now: ToplevelView) -> Seq<ToplevelView> {
    if exists|i: int| entry_at(list, now.window, i) {
        list.update(choose|i: int| entry_at(list, now.window, i), now)
    } else {
        list.push(now)
    }
}

/// The events that bring clients up to date about a live window.
pub open spec fn refresh_events(list: Seq<ToplevelView>, now: ToplevelView) -> Seq<ToplevelEvent> {
    let window = now.window;
    if exists|i: int| entry_at(list, window, i) {
        let was = list[choose|i: int| entry_at(list, window, i)];
        let title = if was.title != now.title {
            seq![ToplevelEvent::Title { window }]
        } else {
            Seq::empty()
        };
        let app_id = if was.app_id != now.app_id {
            seq![ToplevelEvent::AppId { window }]
        } else {
            Seq::empty()
        };
        let done = if was.title != now.title || was.app_id != now.app_id {
            seq![ToplevelEvent::Done { window }]
        } else {
            Seq::empty()
        };
        title + app_id + done
    } else {
        seq![ToplevelEvent::Opened { window }]
    }
}

/// The list after the first `n` windows have been brought up to date.
pub open spec fn synced(
    kept: Seq<ToplevelView>,
    infos: Seq<ToplevelInfo>,
    windows: Seq<u64>,
    n: int,
) -> Seq<ToplevelView>
    decreases n,
{
    if n <= 0 {
        kept
    } else {
        let before = synced(kept, infos, windows, n - 1);
        if is_alive(infos, windows[n - 1]) {
            refreshed(before, described(infos, windows[n - 1]))
        } else {
            before
        }
    }
}

/// The events that bring clients up to date about the first `n` windows.
pub open spec fn sync_events(
    kept: Seq<ToplevelView>,
    infos: Seq<ToplevelInfo>,
    windows: Seq<u64>,
    n: int,
) -> Seq<ToplevelEvent>
    decreases n,
{
    if n <= 0 {
        Seq::empty()
    } else {
        let before = sync_events(kept, infos, windows, n - 1);
        if is_alive(infos, windows[n - 1]) {
            before + refresh_events(
                synced(kept, infos, windows, n - 1),
                described(infos, windows[n - 1]),
            )
        } else {
            before
        }
    }
}

/// The list of open windows.
#[derive(Debug)]
pub struct ToplevelList {
    pub entries: Vec<Toplevel>,
}

impl Default for ToplevelList {
    fn default() -> (l: ToplevelList)
        ensures
            l.entries@.len() == 0,
    {
        ToplevelList { entries: Vec::new() }
    }
}

fn find_info(infos: &[ToplevelInfo], window: u64) -> (r: Option<usize>)
    ensures
        r is Some <==> is_alive(infos@, window),
        r is Some ==> info_at(infos@, window, r->0 as int),
{
    let mut i: usize = 0;
    while i < infos.len()
        invariant
            i <= infos@.len(),
            forall|j: int| 0 <= j < i ==> (#[trigger] infos@[j]).window != window,
        decreases infos@.len() - i,
    {
        if infos[i].window == window {
            assert(info_at(infos@, window, i as int));
            return Some(i);
        }
        i = i + 1;
    }
    None
}

fn text_or_empty(t: &Option<String>) -> (r: String)
    ensures
        r@ == text::text_view(*t).unwrap_or(Seq::empty()),
{
    match t {
        Some(s) => {
            let chars: Vec<char> = text::chars_of(s.as_str());
            text::string_of(chars.as_slice())
        },
        None => String::new(),
    }
}

impl ToplevelList {
    fn find(&self, window: u64) -> (r: Option<usize>)
        ensures
            r is Some <==> exists|i: int| entry_at(views(self.entries@), window, i),
            r is Some ==> entry_at(views(self.entries@), window, r->0 as int),
    {
        let mut i: usize = 0;
        while i < self.entries.len()
            invariant
                i <= self.entries@.len(),
                forall|j: int|
                    0 <= j < i ==> (#[trigger] views(self.entries@)[j]).window != window,
            decreases self.entries@.len() - i,
        {
            if self.entries[i].window == window {
                assert(entry_at(views(self.entries@), window, i as int));
                return Some(i);
            }
            i = i + 1;
        }
        None
    }

    fn drop_closed(&mut self, infos: &[ToplevelInfo], windows: &[u64]) -> (events: Vec<
        ToplevelEvent,
    >)
        ensures
            views(final(self).entries@) == views(old(self).entries@).filter(open(infos@, windows@)),
            events@ == closings(views(old(self).entries@), infos@, windows@),
    {
        let mut kept: Vec<Toplevel> = Vec::new();
        let mut events: Vec<ToplevelEvent> = Vec::new();
        let mut i: usize = 0;
        let ghost all = views(self.entries@);
        let ghost keep = open(infos@, windows@);
        proof {
            reveal(Seq::filter);
            assert(all.take(0).filter(keep) =~= Seq::<ToplevelView>::empty());
            assert(views(kept@) =~= Seq::<ToplevelView>::empty());
        }
        while i < self.entries.len()
            invariant
                i <= all.len(),
                all == views(self.entries@),
                keep == open(infos@, windows@),
                views(kept@) == all.take(i as int).filter(keep),
                events@ == closings(all.take(i as int), infos@, windows@),
            decreases all.len() - i,
        {
            let entry: &Toplevel = &self.entries[i];
            let ghost next = all.take(i + 1);
            proof {
                reveal(Seq::filter);
                assert(next.drop_last() =~= all.take(i as int));
                assert(next.last() == entry@);
            }
            if find_info(infos, entry.window).is_some() && windows::contains(windows, entry.window) {
                let title: Vec<char> = text::chars_of(entry.title.as_str());
                let app_id: Vec<char> = text::chars_of(entry.app_id.as_str());
                let ghost before = kept@;
                kept.push(
                    Toplevel {
                        window: entry.window,
                        title: text::string_of(title.as_slice()),
                        app_id: text::string_of(app_id.as_slice()),
                    },
                );
                assert(views(kept@) =~= views(before).push(entry@));
            } else {
                events.push(ToplevelEvent::Closed { window: entry.window });
            }
            i = i + 1;
        }
        assert(all.take(i as int) =~= all);
        self.entries = kept;
        events
    }

    fn refresh(&mut self, window: u64, title: String, app_id: String, events: &mut Vec<
        ToplevelEvent,
    >)
        ensures
            ({
                let now = ToplevelView { window, title: title@, app_id: app_id@ };
                &&& views(final(self).entries@) == refreshed(views(old(self).entries@), now)
                &&& final(events)@ == old(events)@ + refresh_events(views(old(self).entries@), now)
            }),
    {
        let ghost all = views(self.entries@);
        let ghost now = ToplevelView { window, title: title@, app_id: app_id@ };
        match self.find(window) {
            Some(i) => {
                proof {
                    let k = choose|k: int| entry_at(all, window, k);
                    assert(k == i);
                }
                let new_title: bool = !text::same_str(
                    self.entries[i].title.as_str(),
                    title.as_str(),
                );
                let new_app_id: bool = !text::same_str(
                    self.entries[i].app_id.as_str(),
                    app_id.as_str(),
                );
                if new_title {
                    events.push(ToplevelEvent::Title { window });
                }
                if new_app_id {
                    events.push(ToplevelEvent::AppId { window });
                }
                if new_title || new_app_id {
                    events.push(ToplevelEvent::Done { window });
                }
                assert(events@ =~= old(events)@ + refresh_events(all, now));
                self.entries.set(i, Toplevel { window, title, app_id });
                assert(views(self.entries@) =~= all.update(i as int, now));
            },
            None => {
                events.push(ToplevelEvent::Opened { window });
                self.entries.push(Toplevel { window, title, app_id });
                assert(views(self.entries@) =~= all.push(now));
            },
        }
    }

    /// Brings the list up to date with the windows of the desktop: entries of
    /// windows that are gone are closed, new windows get an entry, and changed
    /// titles and application ids are told. `infos` describes the windows that
    /// are alive.
    pub fn sync_foreign_toplevels(&mut self, windows: &[u64], infos: &[ToplevelInfo]) -> (events: Vec<ToplevelEvent>)
        ensures
            ({
                let was = views(old(self).entries@);
                let kept = was.filter(open(infos@, windows@));
                let n = windows@.len() as int;
                &&& views(final(self).entries@) == synced(kept, infos@, windows@, n)
                &&& events@ == closings(was, infos@, windows@) + sync_events(
                    kept,
                    infos@,
                    windows@,
                    n,
                )
            }),
    {
        let mut events: Vec<ToplevelEvent> = self.drop_closed(infos, windows);
        let ghost closed = events@;
        let ghost kept = views(self.entries@);
        let mut i: usize = 0;
        assert(closed + sync_events(kept, infos@, windows@, 0) =~= closed);
        while i < windows.len()
            invariant
                i <= windows@.len(),
                views(self.entries@) == synced(kept, infos@, windows@, i as int),
                events@ == closed + sync_events(kept, infos@, windows@, i as int),
            decreases windows@.len() - i,
        {
            let window: u64 = windows[i];
            if let Some(k) = find_info(infos, window) {
                proof {
                    let chosen = choose|j: int| info_at(infos@, window, j);
                    assert(chosen == k);
                }
                let title: String = text_or_empty(&infos[k].title);
                let app_id: String = text_or_empty(&infos[k].app_id);
                let ghost now = ToplevelView { window, title: title@, app_id: app_id@ };
                assert(now == described(infos@, window));
                let ghost before = events@;
                let ghost list = views(self.entries@);
                self.refresh(window, title, app_id, &mut events);
                assert(events@ =~= closed + (sync_events(kept, infos@, windows@, i as int)
                    + refresh_events(list, now)));
            }
            i = i + 1;
        }
        events
    }
}

/// The window that a client means by a stable identifier, if one has it.
pub fn toplevel_by_identifier(handles: &[(u64, String)], identifier: &str) -> (r: Option<u64>)
    ensures
        r is None ==> forall|i: int|
            0 <= i < handles@.len() ==> (#[trigger] handles@[i]).1@ != identifier@,
        r is Some ==> exists|i: int|
            0 <= i < handles@.len() && (#[trigger] handles@[i]).1@ == identifier@ && handles@[i].0
                == r->0 && forall|j: int|
                0 <= j < i ==> (#[trigger] handles@[j]).1@ != identifier@,
{
    let mut i: usize = 0;
    while i < handles.len()
        invariant
            i <= handles@.len(),
            forall|j: int| 0 <= j < i ==> (#[trigger] handles@[j]).1@ != identifier@,
        decreases handles@.len() - i,
    {
        if text::same_str(handles[i].1.as_str(), identifier) {
            assert(handles@[i as int].1@ == identifier@);
            return Some(handles[i].0);
        }
        i = i + 1;
    }
    None
}

/// Whether a list has an entry for a window.
pub open spec fn listed(list: Seq<ToplevelView>, window: u64) -> bool {
    exists|i: int| 0 <= i < list.len() && (#[trigger] list[i]).window == window
}

proof fn lemma_listed_has_entry(list: Seq<ToplevelView>, window: u64)
    ensures
        listed(list, window) == exists|i: int| entry_at(list, window, i),
    decreases list.len(),
{
    if list.len() > 0 {
        let rest = list.drop_last();
        lemma_listed_has_entry(rest, window);
        if listed(rest, window) {
            let i = choose|i: int| entry_at(rest, window, i);
            assert(entry_at(list, window, i)) by {
                assert forall|j: int| 0 <= j < i implies (#[trigger] list[j]).window != window by {
                    assert(rest[j].window != window);
                }
            }
            assert(list[i].window == window);
        } else if list.last().window == window {
            assert(entry_at(list, window, list.len() - 1)) by {
                assert forall|j: int| 0 <= j < list.len() - 1 implies (#[trigger] list[j]).window
                    != window by {
                    assert(rest[j].window != window);
                }
            }
            assert(list[list.len() - 1].window == window);
        } else {
            assert forall|i: int| 0 <= i < list.len() implies (#[trigger] list[i]).window
                != window by {
                if i < rest.len() {
                    assert(rest[i].window != window);
                }
            }
        }
    }
}

proof fn lemma_refreshed_lists(list: Seq<ToplevelView>, now: ToplevelView, window: u64)
    ensures
        listed(refreshed(list, now), window) == (listed(list, window) || window == now.window),
{
    lemma_listed_has_entry(list, now.window);
    let after = refreshed(list, now);
    if exists|i: int| entry_at(list, now.window, i) {
        let k = choose|i: int| entry_at(list, now.window, i);
        assert(after[k].window == now.window);
        if listed(list, window) {
            let i = choose|i: int| 0 <= i < list.len() && (#[trigger] list[i]).window == window;
            assert(after[i].window == window);
        }
        if listed(after, window) {
            let i = choose|i: int| 0 <= i < after.len() && (#[trigger] after[i]).window == window;
            assert(list[i].window == window || i == k);
        }
    } else {
        assert(after[list.len() as int] == now);
        if listed(list, window) {
            let i = choose|i: int| 0 <= i < list.len() && (#[trigger] list[i]).window == window;
            assert(after[i].window == window);
        }
        if listed(after, window) {
            let i = choose|i: int| 0 <= i < after.len() && (#[trigger] after[i]).window == window;
            assert(i < list.len() ==> list[i].window == window);
        }
    }
}

proof fn lemma_synced_lists(
    kept: Seq<ToplevelView>,
    infos: Seq<ToplevelInfo>,
    windows: Seq<u64>,
    n: int,
    window: u64,
)
    requires
        0 <= n <= windows.len(),
    ensures
        listed(synced(kept, infos, windows, n), window) == (listed(kept, window) || (is_alive(
            infos,
            window,
        ) && windows.take(n).contains(window))),
    decreases n,
{
    if n > 0 {
        lemma_synced_lists(kept, infos, windows, n - 1, window);
        let w = windows[n - 1];
        let before = windows.take(n - 1);
        let upto = windows.take(n);
        assert(upto[n - 1] == w);
        if before.contains(window) {
            let i = choose|i: int| 0 <= i < before.len() && before[i] == window;
            assert(upto[i] == window);
        }
        if upto.contains(window) && window != w {
            let i = choose|i: int| 0 <= i < upto.len() && upto[i] == window;
            assert(before[i] == window);
        }
        if is_alive(infos, w) {
            lemma_refreshed_lists(
                synced(kept, infos, windows, n - 1),
                described(infos, w),
                window,
            );
        }
    }
}

proof fn lemma_filter_lists(
    list: Seq<ToplevelView>,
    keep: spec_fn(ToplevelView) -> bool,
    window: u64,
)
    ensures
        listed(list.filter(keep), window) ==> exists|i: int|
            0 <= i < list.len() && (#[trigger] list[i]).window == window && keep(list[i]),
        (exists|i: int|
            0 <= i < list.len() && (#[trigger] list[i]).window == window && keep(list[i]))
            ==> listed(list.filter(keep), window),
    decreases list.len(),
{
    reveal(Seq::filter);
    if list.len() > 0 {
        let rest = list.drop_last();
        lemma_filter_lists(rest, keep, window);
        let before = rest.filter(keep);
        let all = list.filter(keep);
        if listed(all, window) {
            let i = choose|i: int| 0 <= i < all.len() && (#[trigger] all[i]).window == window;
            if i < before.len() {
                assert(before[i].window == window);
                let j = choose|j: int|
                    0 <= j < rest.len() && (#[trigger] rest[j]).window == window && keep(rest[j]);
                assert(list[j].window == window && keep(list[j]));
            } else {
                assert(list[list.len() - 1].window == window);
            }
        }
        if exists|i: int|
            0 <= i < list.len() && (#[trigger] list[i]).window == window && keep(list[i]) {
            let i = choose|i: int|
                0 <= i < list.len() && (#[trigger] list[i]).window == window && keep(list[i]);
            if i < rest.len() {
                assert(rest[i].window == window && keep(rest[i]));
                let j = choose|j: int|
                    0 <= j < before.len() && (#[trigger] before[j]).window == window;
                assert(all[j].window == window);
            } else {
                assert(all[before.len() as int].window == window);
            }
        }
    }
}

/// After a sync the list holds exactly the windows of the desktop that are
/// alive.
pub proof fn list_holds_the_open_windows(
    was: Seq<ToplevelView>,
    infos: Seq<ToplevelInfo>,
    windows: Seq<u64>,
    window: u64,
)
    ensures
        listed(
            synced(was.filter(open(infos, windows)), infos, windows, windows.len() as int),
            window,
        ) == (is_alive(infos, window) && windows.contains(window)),
{
    let keep = open(infos, windows);
    lemma_synced_lists(was.filter(keep), infos, windows, windows.len() as int, window);
    assert(windows.take(windows.len() as int) =~= windows);
    lemma_filter_lists(was, keep, window);
}

proof fn lemma_no_closing(
    list: Seq<ToplevelView>,
    infos: Seq<ToplevelInfo>,
    windows: Seq<u64>,
    window: u64,
)
    requires
        is_alive(infos, window),
        windows.contains(window),
    ensures
        forall|i: int|
            0 <= i < closings(list, infos, windows).len() ==> (#[trigger] closings(
                list,
                infos,
                windows,
            )[i]) != (ToplevelEvent::Closed { window }) && closings(list, infos, windows)[i] != (
            ToplevelEvent::Opened { window }),
    decreases list.len(),
{
    if list.len() > 0 {
        lemma_no_closing(list.drop_last(), infos, windows, window);
    }
}

proof fn lemma_no_opening(
    kept: Seq<ToplevelView>,
    infos: Seq<ToplevelInfo>,
    windows: Seq<u64>,
    n: int,
    window: u64,
)
    requires
        listed(kept, window),
        0 <= n <= windows.len(),
    ensures
        forall|i: int|
            0 <= i < sync_events(kept, infos, windows, n).len() ==> (#[trigger] sync_events(
                kept,
                infos,
                windows,
                n,
            )[i]) != (ToplevelEvent::Closed { window }) && sync_events(kept, infos, windows, n)[i]
                != (ToplevelEvent::Opened { window }),
    decreases n,
{
    if n > 0 {
        lemma_no_opening(kept, infos, windows, n - 1, window);
        lemma_synced_lists(kept, infos, windows, n - 1, window);
        let list = synced(kept, infos, windows, n - 1);
        lemma_listed_has_entry(list, window);
    }
}

/// A window that is listed and still open keeps its entry: a sync neither
/// closes it nor opens it again.
pub proof fn open_windows_keep_their_entries(
    was: Seq<ToplevelView>,
    infos: Seq<ToplevelInfo>,
    windows: Seq<u64>,
    window: u64,
)
    requires
        listed(was, window),
        is_alive(infos, window),
        windows.contains(window),
    ensures
        ({
            let kept = was.filter(open(infos, windows));
            let events = closings(was, infos, windows) + sync_events(
                kept,
                infos,
                windows,
                windows.len() as int,
            );
            !events.contains(ToplevelEvent::Closed { window }) && !events.contains(
                ToplevelEvent::Opened { window },
            )
        }),
{
    let kept = was.filter(open(infos, windows));
    let i = choose|i: int| 0 <= i < was.len() && (#[trigger] was[i]).window == window;
    assert(open(infos, windows)(was[i]));
    lemma_filter_lists(was, open(infos, windows), window);
    lemma_no_closing(was, infos, windows, window);
    lemma_no_opening(kept, infos, windows, windows.len() as int, window);
}

proof fn lemma_member_of_workspaces(workspaces: Seq<crate::workspace::Workspace>, n: int, window: u64)
    requires
        0 <= n <= workspaces.len(),
    ensures
        desktop::windows_but(workspaces, -1, n).contains(window) == exists|i: int|
            0 <= i < n && (#[trigger] workspaces[i]).tiling.order@.contains(window),
    decreases n,
{
    if n > 0 {
        lemma_member_of_workspaces(workspaces, n - 1, window);
        let before = desktop::windows_but(workspaces, -1, n - 1);
        let more = workspaces[n - 1].tiling.order@;
        let all = desktop::windows_but(workspaces, -1, n);
        assert(all == before + more);
        if before.contains(window) {
            let i = choose|i: int| 0 <= i < before.len() && before[i] == window;
            assert(all[i] == window);
        }
        if more.contains(window) {
            let i = choose|i: int| 0 <= i < more.len() && more[i] == window;
            assert(all[before.len() + i] == window);
        }
        if all.contains(window) {
            let i = choose|i: int| 0 <= i < all.len() && all[i] == window;
            if i < before.len() {
                assert(before[i] == window);
            } else {
                assert(more[i - before.len()] == window);
            }
        }
    }
}

/// Switching to another workspace, which may create it, takes no window from
/// the list of all windows.
pub proof fn switching_keeps_every_window(
    before: WorkspaceSet,
    after: WorkspaceSet,
    len: int,
    window: u64,
)
    requires
        before.grown(after, len),
        desktop::windows_but(
            before.workspaces@,
            -1,
            before.workspaces@.len() as int,
        ).contains(window),
    ensures
        desktop::windows_but(
            after.workspaces@,
            -1,
            after.workspaces@.len() as int,
        ).contains(window),
{
    let old_list = before.workspaces@;
    let new_list = after.workspaces@;
    lemma_member_of_workspaces(old_list, old_list.len() as int, window);
    lemma_member_of_workspaces(new_list, new_list.len() as int, window);
    let i = choose|i: int|
        0 <= i < old_list.len() && (#[trigger] old_list[i]).tiling.order@.contains(window);
    assert(new_list[i] == old_list[i]);
}

/// Clients are told that a window is closed if and only if it is listed and not
/// open any more.
pub proof fn closed_windows_are_told(
    list: Seq<ToplevelView>,
    infos: Seq<ToplevelInfo>,
    windows: Seq<u64>,
    window: u64,
)
    ensures
        closings(list, infos, windows).contains(ToplevelEvent::Closed { window }) <==> listed(
            list,
            window,
        ) && !(is_alive(infos, window) && windows.contains(window)),
    decreases list.len(),
{
    let event = ToplevelEvent::Closed { window };
    if list.len() > 0 {
        let rest = list.drop_last();
        let last = list.last();
        closed_windows_are_told(rest, infos, windows, window);
        let before = closings(rest, infos, windows);
        let all = closings(list, infos, windows);
        assert(list[list.len() - 1] == last);
        if listed(rest, window) {
            let i = choose|i: int| 0 <= i < rest.len() && (#[trigger] rest[i]).window == window;
            assert(list[i] == rest[i]);
        }
        if listed(list, window) && last.window != window {
            let i = choose|i: int| 0 <= i < list.len() && (#[trigger] list[i]).window == window;
            assert(rest[i] == list[i]);
        }
        if all.contains(event) {
            let k = choose|k: int| 0 <= k < all.len() && all[k] == event;
            if k < before.len() {
                assert(before[k] == event);
            }
        }
        if before.contains(event) {
            let k = choose|k: int| 0 <= k < before.len() && before[k] == event;
            assert(all[k] == event);
        }
        if !open(infos, windows)(last) {
            assert(all[all.len() - 1] == (ToplevelEvent::Closed { window: last.window }));
        }
    }
}

/// A window that was not listed is opened. For one that was, clients are told
/// the title if and only if it has changed, then the application id if and only
/// if that has, and then, if anything has, that this is all.
pub proof fn only_changes_are_told(list: Seq<ToplevelView>, now: ToplevelView, i: int)
    ensures
        ({
            let window = now.window;
            let events = refresh_events(list, now);
            &&& !listed(list, window) ==> events == seq![ToplevelEvent::Opened { window }]
            &&& entry_at(list, window, i) ==> {
                let title = list[i].title != now.title;
                let app_id = list[i].app_id != now.app_id;
                &&& events.contains(ToplevelEvent::Title { window }) <==> title
                &&& events.contains(ToplevelEvent::AppId { window }) <==> app_id
                &&& title || app_id ==> events.last() == (ToplevelEvent::Done { window })
                &&& !title && !app_id ==> events.len() == 0
                &&& title && app_id ==> events.len() == 3 && events[0] == (ToplevelEvent::Title {
                    window,
                }) && events[1] == (ToplevelEvent::AppId { window })
                &&& !events.contains(ToplevelEvent::Opened { window })
            }
        }),
{
    let window = now.window;
    let events = refresh_events(list, now);
    lemma_listed_has_entry(list, window);
    if entry_at(list, window, i) {
        let k = choose|k: int| entry_at(list, window, k);
        assert(entry_at(list, window, k));
        assert(k == i);
        let title = list[i].title != now.title;
        let app_id = list[i].app_id != now.app_id;
        if title {
            assert(events[0] == (ToplevelEvent::Title { window }));
        }
        if app_id {
            let at: int = if title {
                1
            } else {
                0
            };
            assert(events[at] == (ToplevelEvent::AppId { window }));
        }
        if events.contains(ToplevelEvent::Title { window }) {
            let j = choose|j: int|
                0 <= j < events.len() && events[j] == (ToplevelEvent::Title { window });
        }
        if events.contains(ToplevelEvent::AppId { window }) {
            let j = choose|j: int|
                0 <= j < events.len() && events[j] == (ToplevelEvent::AppId { window });
        }
    } else if !listed(list, window) {
        assert(forall|k: int| !entry_at(list, window, k));
    }
}

/// After a sync, the entry of every open window has the title and the
/// application id that its client says, and empty texts for what it does not
/// say.
pub proof fn entries_say_what_the_clients_say(
    kept: Seq<ToplevelView>,
    infos: Seq<ToplevelInfo>,
    windows: Seq<u64>,
    n: int,
    k: int,
    j: int,
    i: int,
)
    requires
        0 <= k < n <= windows.len(),
        info_at(infos, windows[k], j),
        entry_at(synced(kept, infos, windows, n), windows[k], i),
    ensures
        ({
            let entry = synced(kept, infos, windows, n)[i];
            &&& entry.title == (match infos[j].title {
                Some(t) => t@,
                None => Seq::empty(),
            })
            &&& entry.app_id == (match infos[j].app_id {
                Some(t) => t@,
                None => Seq::empty(),
            })
        }),
    decreases n,
{
    let w = windows[k];
    let chosen = choose|c: int| info_at(infos, w, c);
    assert(info_at(infos, w, chosen));
    assert(chosen == j);
    assert(is_alive(infos, w));
    let before = synced(kept, infos, windows, n - 1);
    let list = synced(kept, infos, windows, n);
    let last = windows[n - 1];
    if last == w {
        let now = described(infos, w);
        assert(list == refreshed(before, now));
        assert(now.window == w);
        if exists|c: int| entry_at(before, now.window, c) {
            let c = choose|c: int| entry_at(before, now.window, c);
            assert(entry_at(before, w, c));
            assert(list == before.update(c, now));
            assert(entry_at(list, w, c));
            assert(c == i);
        } else {
            assert(list == before.push(now));
            lemma_listed_has_entry(before, w);
            if i < before.len() {
                assert(before[i].window == w);
                assert(listed(before, w));
            }
        }
    } else {
        if is_alive(infos, last) {
            let now = described(infos, last);
            assert(list == refreshed(before, now));
            assert(now.window == last);
            if exists|c: int| entry_at(before, now.window, c) {
                let c = choose|c: int| entry_at(before, now.window, c);
                assert(entry_at(before, last, c));
                assert(list == before.update(c, now));
                assert(list[i] == before[i]);
                assert forall|m: int| 0 <= m < i implies (#[trigger] before[m]).window != w by {
                    assert(list[m].window != w);
                }
                assert(entry_at(before, w, i));
            } else {
                assert(list == before.push(now));
                assert forall|m: int| 0 <= m < i implies (#[trigger] before[m]).window != w by {
                    assert(list[m].window != w);
                }
                assert(entry_at(before, w, i));
            }
        }
        entries_say_what_the_clients_say(kept, infos, windows, n - 1, k, j, i);
    }
}

/// The windows of a desktop are those of its workspaces, the one in the
/// anonymous scratchpad, and those that named scratchpads show or hide.
pub proof fn windows_of_a_desktop_are_on_it_or_stashed(desktop: Desktop, window: u64)
    ensures
        spec_all_windows(desktop).contains(window) <==> {
            ||| exists|i: int|
                0 <= i < desktop.workspaces.workspaces@.len() && (
                #[trigger] desktop.workspaces.workspaces@[i]).tiling.order@.contains(window)
            ||| desktop.scratchpad == Some(window)
            ||| exists|i: int|
                0 <= i < desktop.named@.len() && ((#[trigger] desktop.named@[i]).state
                    == NamedScratchpad::Shown(window) || desktop.named@[i].state
                    == NamedScratchpad::Hidden(window))
        },
{
    let workspaces = desktop.workspaces.workspaces@;
    let tiled = desktop::windows_but(workspaces, -1, workspaces.len() as int);
    let stashed = match desktop.scratchpad {
        Some(w) => seq![w],
        None => Seq::<u64>::empty(),
    };
    let named = named_windows(desktop.named@);
    let all = spec_all_windows(desktop);
    assert(all == tiled + stashed + named);
    lemma_member_of_workspaces(workspaces, workspaces.len() as int, window);
    lemma_member_of_named(desktop.named@, window);
    if tiled.contains(window) {
        let i = choose|i: int| 0 <= i < tiled.len() && tiled[i] == window;
        assert(all[i] == window);
    }
    if desktop.scratchpad == Some(window) {
        assert(all[tiled.len() as int] == window);
    }
    if named.contains(window) {
        let i = choose|i: int| 0 <= i < named.len() && named[i] == window;
        assert(all[tiled.len() + stashed.len() + i] == window);
    }
    if all.contains(window) {
        let i = choose|i: int| 0 <= i < all.len() && all[i] == window;
        if i < tiled.len() {
            assert(tiled[i] == window);
        } else if i >= tiled.len() + stashed.len() {
            assert(named[i - tiled.len() - stashed.len()] == window);
        }
    }
}

proof fn lemma_member_of_named(named: Seq<NamedSlot>, window: u64)
    ensures
        named_windows(named).contains(window) <==> exists|i: int|
            0 <= i < named.len() && ((#[trigger] named[i]).state == NamedScratchpad::Shown(window)
                || named[i].state == NamedScratchpad::Hidden(window)),
    decreases named.len(),
{
    if named.len() > 0 {
        let rest = named.drop_last();
        lemma_member_of_named(rest, window);
        let before = named_windows(rest);
        let all = named_windows(named);
        assert(named[named.len() - 1] == named.last());
        if before.contains(window) {
            let k = choose|k: int| 0 <= k < before.len() && before[k] == window;
            assert(all[k] == window);
            let i = choose|i: int|
                0 <= i < rest.len() && ((#[trigger] rest[i]).state == NamedScratchpad::Shown(window)
                    || rest[i].state == NamedScratchpad::Hidden(window));
            assert(named[i] == rest[i]);
        }
        if all.contains(window) {
            let k = choose|k: int| 0 <= k < all.len() && all[k] == window;
            if k < before.len() {
                assert(before[k] == window);
            }
        }
        if exists|i: int|
            0 <= i < named.len() && ((#[trigger] named[i]).state == NamedScratchpad::Shown(window)
                || named[i].state == NamedScratchpad::Hidden(window)) {
            let i = choose|i: int|
                0 <= i < named.len() && ((#[trigger] named[i]).state == NamedScratchpad::Shown(
                    window,
                ) || named[i].state == NamedScratchpad::Hidden(window));
            if i < rest.len() {
                assert(rest[i] == named[i]);
            } else {
                assert(all[all.len() - 1] == window);
            }
        }
    }
}

/// A sync tells that a window has appeared if and only if the window is open and
/// was not listed before.
pub proof fn new_windows_are_told(
    kept: Seq<ToplevelView>,
    infos: Seq<ToplevelInfo>,
    windows: Seq<u64>,
    n: int,
    window: u64,
)
    requires
        0 <= n <= windows.len(),
    ensures
        sync_events(kept, infos, windows, n).contains(ToplevelEvent::Opened { window })
            <==> is_alive(infos, window) && windows.take(n).contains(window) && !listed(
            kept,
            window,
        ),
    decreases n,
{
    let event = ToplevelEvent::Opened { window };
    if n > 0 {
        new_windows_are_told(kept, infos, windows, n - 1, window);
        lemma_synced_lists(kept, infos, windows, n - 1, window);
        let last = windows[n - 1];
        let before = sync_events(kept, infos, windows, n - 1);
        let all = sync_events(kept, infos, windows, n);
        let list = synced(kept, infos, windows, n - 1);
        let now = described(infos, last);
        let more = refresh_events(list, now);
        assert(windows.take(n) =~= windows.take(n - 1).push(last));
        vstd::seq_lib::lemma_seq_contains_after_push(windows.take(n - 1), last, window);
        assert(windows.take(n)[n - 1] == last);
        if is_alive(infos, last) {
            assert(now.window == last);
            lemma_listed_has_entry(list, last);
            assert(more.contains(event) <==> last == window && !listed(list, window)) by {
                if listed(list, last) {
                    let i = choose|i: int| entry_at(list, last, i);
                    assert(entry_at(list, now.window, i));
                    only_changes_are_told(list, now, i);
                    assert(forall|k: int| 0 <= k < more.len() ==> !(#[trigger] more[k] is Opened));
                } else {
                    only_changes_are_told(list, now, 0);
                    assert(more[0] == (ToplevelEvent::Opened { window: last }));
                }
            }
            vstd::seq_lib::lemma_seq_concat_contains_all_elements(before, more, event);
            if last == window && listed(list, window) && !listed(kept, window) {
                assert(windows.take(n - 1).contains(window));
            }
        }
    } else {
        assert(windows.take(0).len() == 0);
    }
}

} // verus!
