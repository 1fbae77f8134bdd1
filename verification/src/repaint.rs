//! What clients are told before and after a frame is drawn.

use crate::shell::{CursorImage, SpitfireState};
use crate::windows;
use vstd::prelude::*;

verus! {

/// Clients that draw nothing visible are told to go on at least this often, in
/// milliseconds.
pub const FRAME_THROTTLE: u64 = 1000;

/// A surface at the top of a tree that takes part in a frame.
#[derive(Debug, Clone, Copy, PartialEq, Eq, Structural)]
pub enum FrameRoot {
    Window { window: u64 },
    /// A layer surface of the output.
    Layer { surface: u64 },
    Cursor { surface: u64 },
    /// The icon of a drag.
    Icon { surface: u64 },
    /// What the screen locker shows.
    Lock { surface: u64 },
}

/// The windows as roots.
pub open spec fn window_roots(windows: Seq<u64>) -> Seq<FrameRoot> {
    Seq::new(windows.len(), |i: int| FrameRoot::Window { window: windows[i] })
}

/// The layer surfaces as roots.
pub open spec fn layer_roots(layers: Seq<u64>) -> Seq<FrameRoot> {
    Seq::new(layers.len(), |i: int| FrameRoot::Layer { surface: layers[i] })
}

/// The roots that take part in a frame besides windows and layer surfaces.
pub open spec fn extra_roots(shell: SpitfireState) -> Seq<FrameRoot> {
    let cursor = match shell.cursor {
        CursorImage::Surface { surface, hotspot } => seq![FrameRoot::Cursor { surface }],
        _ => Seq::empty(),
    };
    let icon = match shell.dnd_icon {
        Some(icon) => seq![FrameRoot::Icon { surface: icon.surface }],
        None => Seq::empty(),
    };
    let lock = if shell.locked && shell.lock_surfaces@.len() > 0 {
        seq![FrameRoot::Lock { surface: shell.lock_surfaces@[0] }]
    } else {
        Seq::empty()
    };
    cursor + icon + lock
}

/// Everything that takes part in a frame, in order: the windows, the layer
/// surfaces of the output, the cursor, the icon of a drag, and what the screen
/// locker shows.
pub fn frame_roots(shell: &SpitfireState, windows: &[u64], layers: &[u64]) -> (roots: Vec<FrameRoot>)
    ensures
        roots@ == window_roots(windows@) + layer_roots(layers@) + extra_roots(*shell),
{
    let mut roots: Vec<FrameRoot> = Vec::new();
    let mut i: usize = 0;
    while i < windows.len()
        invariant
            i <= windows@.len(),
            roots@ =~= window_roots(windows@.take(i as int)),
        decreases windows@.len() - i,
    {
        roots.push(FrameRoot::Window { window: windows[i] });
        i = i + 1;
    }
    assert(windows@.take(i as int) =~= windows@);
    let mut j: usize = 0;
    while j < layers.len()
        invariant
            j <= layers@.len(),
            roots@ =~= window_roots(windows@) + layer_roots(layers@.take(j as int)),
        decreases layers@.len() - j,
    {
        roots.push(FrameRoot::Layer { surface: layers[j] });
        j = j + 1;
    }
    assert(layers@.take(j as int) =~= layers@);
    if let CursorImage::Surface { surface, hotspot: _ } = shell.cursor {
        roots.push(FrameRoot::Cursor { surface });
    }
    if let Some(icon) = shell.dnd_icon {
        roots.push(FrameRoot::Icon { surface: icon.surface });
    }
    if let Some(surface) = shell.locked_surface() {
        roots.push(FrameRoot::Lock { surface });
    }
    assert(roots@ =~= window_roots(windows@) + layer_roots(layers@) + extra_roots(*shell));
    roots
}

/// A surface that takes part in a frame.
#[derive(Debug, Clone, Copy, PartialEq, Eq, Structural)]
pub struct SurfaceFacts {
    pub surface: u64,
    pub client: u64,
    /// The output that mainly shows the surface, if one is known.
    pub primary: Option<u64>,
    /// The next commit waits for this frame.
    pub barrier: bool,
    /// Commits of the surface wait for a point in time.
    pub timer: bool,
}

/// A tree of surfaces that takes part in a frame.
#[derive(Debug)]
pub struct FrameTree {
    pub root: FrameRoot,
    /// A window is on the output of the frame.
    pub on_output: bool,
    pub surfaces: Vec<SurfaceFacts>,
}

/// A step for the compositor.
#[derive(Debug, Clone, Copy, PartialEq, Eq, Structural)]
pub enum FrameStep {
    /// Tell a surface the scale of the output that mainly shows it.
    PreferScale { surface: u64, output: u64 },
    /// Let the commit go on that waits for this frame.
    Signal { surface: u64 },
    /// Let commits go on that wait for a point in time up to the frame.
    SignalTimer { surface: u64 },
    /// Tell the surfaces of a tree to draw their next frame.
    SendFrame { root: FrameRoot },
    /// Tell the surfaces of a tree which buffers suit the output.
    SendFeedback { root: FrameRoot },
}

/// The clients of the surfaces of the first `n` trees that `waits` selects.
pub open spec fn waiting_clients(
    trees: Seq<FrameTree>,
    waits: spec_fn(SurfaceFacts) -> bool,
    client: u64,
) -> bool {
    exists|i: int, j: int|
        0 <= i < trees.len() && 0 <= j < trees[i].surfaces@.len() && waits(
            #[trigger] trees[i].surfaces@[j],
        ) && trees[i].surfaces@[j].client == client
}

/// The predicate "has commits that wait for a point in time".
pub open spec fn has_timer() -> spec_fn(SurfaceFacts) -> bool {
    |s: SurfaceFacts| s.timer
}

/// The predicate "has a commit that waits for this frame": the output mainly
/// shows the surface, or no output is known to.
pub open spec fn has_barrier(output: u64) -> spec_fn(SurfaceFacts) -> bool {
    |s: SurfaceFacts| s.barrier && (s.primary is None || s.primary == Some(output))
}

/// The steps before a frame for the first `n` surfaces of a tree.
pub open spec fn timer_steps(surfaces: Seq<SurfaceFacts>, n: int) -> Seq<FrameStep>
    decreases n,
{
    if n <= 0 {
        Seq::empty()
    } else {
        let before = timer_steps(surfaces, n - 1);
        if surfaces[n - 1].timer {
            before.push(FrameStep::SignalTimer { surface: surfaces[n - 1].surface })
        } else {
            before
        }
    }
}

/// The steps before a frame for the first `n` trees.
pub open spec fn all_timer_steps(trees: Seq<FrameTree>, n: int) -> Seq<FrameStep>
    decreases n,
{
    if n <= 0 {
        Seq::empty()
    } else {
        all_timer_steps(trees, n - 1) + timer_steps(
            trees[n - 1].surfaces@,
            trees[n - 1].surfaces@.len() as int,
        )
    }
}

fn add_client(clients: &mut Vec<u64>, client: u64)
    requires
        old(clients)@.no_duplicates(),
    ensures
        final(clients)@.no_duplicates(),
        forall|c: u64| #[trigger] final(clients)@.contains(c) <==> old(clients)@.contains(c) || c
            == client,
{
    if !windows::contains(clients.as_slice(), client) {
        clients.push(client);
        proof {
            assert(clients@[clients@.len() - 1] == client);
            assert forall|c: u64| #[trigger] clients@.contains(c) <==> old(clients)@.contains(c)
                || c == client by {
                if old(clients)@.contains(c) {
                    let k = choose|k: int| 0 <= k < old(clients)@.len() && old(clients)@[k] == c;
                    assert(clients@[k] == c);
                }
                if clients@.contains(c) && c != client {
                    let k = choose|k: int| 0 <= k < clients@.len() && clients@[k] == c;
                    assert(old(clients)@[k] == c);
                }
            }
        }
    }
}

/// Before a frame is drawn: commits that wait for a point in time up to it go
/// on. Returns the steps and the clients that have to be looked after, each
/// once.
pub fn pre_repaint(trees: &[FrameTree]) -> (r: (Vec<FrameStep>, Vec<u64>))
    ensures
        r.0@ == all_timer_steps(trees@, trees@.len() as int),
        r.1@.no_duplicates(),
        forall|c: u64| #[trigger]
            r.1@.contains(c) <==> waiting_clients(trees@, has_timer(), c),
{
    let mut steps: Vec<FrameStep> = Vec::new();
    let mut clients: Vec<u64> = Vec::new();
    let mut i: usize = 0;
    assert forall|c: u64| #[trigger] clients@.contains(c) <==> waiting_clients(
        trees@.take(0),
        has_timer(),
        c,
    ) by {}
    while i < trees.len()
        invariant
            i <= trees@.len(),
            steps@ == all_timer_steps(trees@, i as int),
            clients@.no_duplicates(),
            forall|c: u64| #[trigger]
                clients@.contains(c) <==> waiting_clients(trees@.take(i as int), has_timer(), c),
        decreases trees@.len() - i,
    {
        let surfaces: &Vec<SurfaceFacts> = &trees[i].surfaces;
        let ghost done = steps@;
        let ghost known = clients@;
        let mut j: usize = 0;
        assert(done + timer_steps(surfaces@, 0) =~= done);
        while j < surfaces.len()
            invariant
                j <= surfaces@.len(),
                steps@ == done + timer_steps(surfaces@, j as int),
                clients@.no_duplicates(),
                forall|c: u64| #[trigger]
                    clients@.contains(c) <==> known.contains(c) || exists|k: int|
                        0 <= k < j && (#[trigger] surfaces@[k]).timer && surfaces@[k].client == c,
            decreases surfaces@.len() - j,
        {
            let s: SurfaceFacts = surfaces[j];
            if s.timer {
                steps.push(FrameStep::SignalTimer { surface: s.surface });
                let ghost before = clients@;
                add_client(&mut clients, s.client);
                assert(forall|c: u64| #[trigger]
                    clients@.contains(c) <==> before.contains(c) || c == s.client);
            }
            assert(steps@ =~= done + timer_steps(surfaces@, j + 1));
            proof {
                assert forall|c: u64| #[trigger] clients@.contains(c) <==> known.contains(c)
                    || exists|k: int|
                    0 <= k < j + 1 && (#[trigger] surfaces@[k]).timer && surfaces@[k].client == c by {
                    if s.timer && c == s.client {
                        assert(surfaces@[j as int].timer);
                    }
                }
            }
            j = j + 1;
        }
        proof {
            lemma_next_tree(trees@, i as int, has_timer());
            assert forall|c: u64| #[trigger] clients@.contains(c) <==> waiting_clients(
                trees@.take(i + 1),
                has_timer(),
                c,
            ) by {
                assert(known.contains(c) <==> waiting_clients(trees@.take(i as int), has_timer(), c));
                if exists|k: int|
                    0 <= k < surfaces@.len() && (#[trigger] surfaces@[k]).timer
                        && surfaces@[k].client == c {
                    let k = choose|k: int|
                        0 <= k < surfaces@.len() && (#[trigger] surfaces@[k]).timer
                            && surfaces@[k].client == c;
                    assert(has_timer()(trees@[i as int].surfaces@[k]));
                }
            }
        }
        i = i + 1;
    }
    assert(trees@.take(i as int) =~= trees@);
    (steps, clients)
}

/// The clients of one more tree.
proof fn lemma_next_tree(trees: Seq<FrameTree>, i: int, waits: spec_fn(SurfaceFacts) -> bool)
    requires
        0 <= i < trees.len(),
    ensures
        forall|c: u64| #[trigger]
            waiting_clients(trees.take(i + 1), waits, c) <==> waiting_clients(
                trees.take(i),
                waits,
                c,
            ) || exists|k: int|
                0 <= k < trees[i].surfaces@.len() && waits(#[trigger] trees[i].surfaces@[k])
                    && trees[i].surfaces@[k].client == c,
{
    let shorter = trees.take(i);
    let longer = trees.take(i + 1);
    assert forall|c: u64| #[trigger] waiting_clients(longer, waits, c) <==> waiting_clients(
        shorter,
        waits,
        c,
    ) || exists|k: int|
        0 <= k < trees[i].surfaces@.len() && waits(#[trigger] trees[i].surfaces@[k])
            && trees[i].surfaces@[k].client == c by {
        if waiting_clients(shorter, waits, c) {
            let (a, b) = choose|a: int, b: int|
                0 <= a < shorter.len() && 0 <= b < shorter[a].surfaces@.len() && waits(
                    #[trigger] shorter[a].surfaces@[b],
                ) && shorter[a].surfaces@[b].client == c;
            assert(longer[a] == shorter[a]);
            assert(waits(longer[a].surfaces@[b]));
        }
        if exists|k: int|
            0 <= k < trees[i].surfaces@.len() && waits(#[trigger] trees[i].surfaces@[k])
                && trees[i].surfaces@[k].client == c {
            let k = choose|k: int|
                0 <= k < trees[i].surfaces@.len() && waits(#[trigger] trees[i].surfaces@[k])
                    && trees[i].surfaces@[k].client == c;
            assert(longer[i] == trees[i]);
            assert(waits(longer[i].surfaces@[k]));
        }
        if waiting_clients(longer, waits, c) {
            let (a, b) = choose|a: int, b: int|
                0 <= a < longer.len() && 0 <= b < longer[a].surfaces@.len() && waits(
                    #[trigger] longer[a].surfaces@[b],
                ) && longer[a].surfaces@[b].client == c;
            if a < i {
                assert(shorter[a] == longer[a]);
                assert(waits(shorter[a].surfaces@[b]));
            } else {
                assert(waits(trees[i].surfaces@[b]));
            }
        }
    }
}

/// The steps after a frame for the first `n` surfaces of a tree: every surface
/// learns the scale of the output that mainly shows it, and a commit that
/// waits for this frame goes on.
pub open spec fn surface_steps(surfaces: Seq<SurfaceFacts>, output: u64, n: int) -> Seq<FrameStep>
    decreases n,
{
    if n <= 0 {
        Seq::empty()
    } else {
        let s = surfaces[n - 1];
        let scale: Seq<FrameStep> = match s.primary {
            Some(id) => seq![FrameStep::PreferScale { surface: s.surface, output: id }],
            None => Seq::empty(),
        };
        let signal: Seq<FrameStep> = if has_barrier(output)(s) {
            seq![FrameStep::Signal { surface: s.surface }]
        } else {
            Seq::empty()
        };
        surface_steps(surfaces, output, n - 1) + scale + signal
    }
}

/// Whether the surfaces of a tree are told to draw their next frame: those of
/// windows on the output, of layer surfaces and of the screen locker.
pub open spec fn gets_frame(root: FrameRoot, on_output: bool) -> bool {
    match root {
        FrameRoot::Window { .. } => on_output,
        FrameRoot::Layer { .. } => true,
        FrameRoot::Lock { .. } => true,
        FrameRoot::Cursor { .. } => false,
        FrameRoot::Icon { .. } => false,
    }
}

/// The steps after a frame for a tree.
pub open spec fn tree_steps(tree: FrameTree, output: u64, feedback: bool) -> Seq<FrameStep> {
    let told: Seq<FrameStep> = if !gets_frame(tree.root, tree.on_output) {
        Seq::empty()
    } else if feedback {
        seq![
            FrameStep::SendFrame { root: tree.root },
            FrameStep::SendFeedback { root: tree.root },
        ]
    } else {
        seq![FrameStep::SendFrame { root: tree.root }]
    };
    surface_steps(tree.surfaces@, output, tree.surfaces@.len() as int) + told
}

/// The steps after a frame for the first `n` trees.
pub open spec fn all_steps(trees: Seq<FrameTree>, output: u64, feedback: bool, n: int) -> Seq<
    FrameStep,
>
    decreases n,
{
    if n <= 0 {
        Seq::empty()
    } else {
        all_steps(trees, output, feedback, n - 1) + tree_steps(trees[n - 1], output, feedback)
    }
}

fn is_told(root: FrameRoot, on_output: bool) -> (r: bool)
    ensures
        r == gets_frame(root, on_output),
{
    match root {
        FrameRoot::Window { .. } => on_output,
        FrameRoot::Layer { .. } => true,
        FrameRoot::Lock { .. } => true,
        FrameRoot::Cursor { .. } => false,
        FrameRoot::Icon { .. } => false,
    }
}

/// After a frame has been drawn on an output: surfaces learn their scale,
/// commits that wait for the frame go on, and clients are told to draw the
/// next one; with `feedback`, also which buffers suit the output. Returns the
/// steps and the clients that have to be looked after, each once.
pub fn post_repaint(trees: &[FrameTree], output: u64, feedback: bool) -> (r: (
    Vec<FrameStep>,
    Vec<u64>,
))
    ensures
        r.0@ == all_steps(trees@, output, feedback, trees@.len() as int),
        r.1@.no_duplicates(),
        forall|c: u64| #[trigger]
            r.1@.contains(c) <==> waiting_clients(trees@, has_barrier(output), c),
{
    let mut steps: Vec<FrameStep> = Vec::new();
    let mut clients: Vec<u64> = Vec::new();
    let mut i: usize = 0;
    let ghost waits = has_barrier(output);
    assert forall|c: u64| #[trigger] clients@.contains(c) <==> waiting_clients(
        trees@.take(0),
        waits,
        c,
    ) by {}
    while i < trees.len()
        invariant
            i <= trees@.len(),
            waits == has_barrier(output),
            steps@ == all_steps(trees@, output, feedback, i as int),
            clients@.no_duplicates(),
            forall|c: u64| #[trigger]
                clients@.contains(c) <==> waiting_clients(trees@.take(i as int), waits, c),
        decreases trees@.len() - i,
    {
        let surfaces: &Vec<SurfaceFacts> = &trees[i].surfaces;
        let ghost done = steps@;
        let ghost known = clients@;
        let mut j: usize = 0;
        assert(done + surface_steps(surfaces@, output, 0) =~= done);
        while j < surfaces.len()
            invariant
                j <= surfaces@.len(),
                waits == has_barrier(output),
                steps@ == done + surface_steps(surfaces@, output, j as int),
                clients@.no_duplicates(),
                forall|c: u64| #[trigger]
                    clients@.contains(c) <==> known.contains(c) || exists|k: int|
                        0 <= k < j && waits(#[trigger] surfaces@[k]) && surfaces@[k].client == c,
            decreases surfaces@.len() - j,
        {
            let s: SurfaceFacts = surfaces[j];
            let mut mine: bool = true;
            if let Some(id) = s.primary {
                steps.push(FrameStep::PreferScale { surface: s.surface, output: id });
                mine = id == output;
            }
            assert((s.barrier && mine) == waits(s));
            if mine && s.barrier {
                steps.push(FrameStep::Signal { surface: s.surface });
                let ghost before = clients@;
                add_client(&mut clients, s.client);
                assert(forall|c: u64| #[trigger]
                    clients@.contains(c) <==> before.contains(c) || c == s.client);
            }
            assert(steps@ =~= done + surface_steps(surfaces@, output, j + 1));
            proof {
                assert forall|c: u64| #[trigger] clients@.contains(c) <==> known.contains(c)
                    || exists|k: int|
                    0 <= k < j + 1 && waits(#[trigger] surfaces@[k]) && surfaces@[k].client == c by {
                    if waits(s) && c == s.client {
                        assert(waits(surfaces@[j as int]));
                    }
                }
            }
            j = j + 1;
        }
        let root: FrameRoot = trees[i].root;
        if is_told(root, trees[i].on_output) {
            steps.push(FrameStep::SendFrame { root });
            if feedback {
                steps.push(FrameStep::SendFeedback { root });
            }
        }
        assert(steps@ =~= done + tree_steps(trees@[i as int], output, feedback));
        proof {
            lemma_next_tree(trees@, i as int, waits);
            assert forall|c: u64| #[trigger] clients@.contains(c) <==> waiting_clients(
                trees@.take(i + 1),
                waits,
                c,
            ) by {
                assert(known.contains(c) <==> waiting_clients(trees@.take(i as int), waits, c));
                if exists|k: int|
                    0 <= k < surfaces@.len() && waits(#[trigger] surfaces@[k])
                        && surfaces@[k].client == c {
                    let k = choose|k: int|
                        0 <= k < surfaces@.len() && waits(#[trigger] surfaces@[k])
                            && surfaces@[k].client == c;
                    assert(waits(trees@[i as int].surfaces@[k]));
                }
            }
        }
        i = i + 1;
    }
    assert(trees@.take(i as int) =~= trees@);
    (steps, clients)
}

/// The roots whose surfaces are told when the frame is shown: windows on the
/// output, layer surfaces and what the screen locker shows.
pub open spec fn presented(trees: Seq<FrameTree>, n: int) -> Seq<FrameRoot>
    decreases n,
{
    if n <= 0 {
        Seq::empty()
    } else {
        let before = presented(trees, n - 1);
        if gets_frame(trees[n - 1].root, trees[n - 1].on_output) {
            before.push(trees[n - 1].root)
        } else {
            before
        }
    }
}

/// The roots whose surfaces are told when the frame is shown.
pub fn take_presentation_feedback(trees: &[FrameTree]) -> (roots: Vec<FrameRoot>)
    ensures
        roots@ == presented(trees@, trees@.len() as int),
{
    let mut roots: Vec<FrameRoot> = Vec::new();
    let mut i: usize = 0;
    while i < trees.len()
        invariant
            i <= trees@.len(),
            roots@ == presented(trees@, i as int),
        decreases trees@.len() - i,
    {
        if is_told(trees[i].root, trees[i].on_output) {
            roots.push(trees[i].root);
        }
        i = i + 1;
    }
    roots
}

/// Every surface of every tree, in order: those whose main output is settled
/// anew with a frame.
pub open spec fn all_surfaces(trees: Seq<FrameTree>, n: int) -> Seq<u64>
    decreases n,
{
    if n <= 0 {
        Seq::empty()
    } else {
        let s = trees[n - 1].surfaces@;
        all_surfaces(trees, n - 1) + Seq::new(s.len(), |i: int| s[i].surface)
    }
}

/// The surfaces whose main output is settled anew with a frame.
pub fn update_primary_scanout_output(trees: &[FrameTree]) -> (surfaces: Vec<u64>)
    ensures
        surfaces@ == all_surfaces(trees@, trees@.len() as int),
{
    let mut r: Vec<u64> = Vec::new();
    let mut i: usize = 0;
    while i < trees.len()
        invariant
            i <= trees@.len(),
            r@ == all_surfaces(trees@, i as int),
        decreases trees@.len() - i,
    {
        let surfaces: &Vec<SurfaceFacts> = &trees[i].surfaces;
        let ghost done = r@;
        let mut j: usize = 0;
        while j < surfaces.len()
            invariant
                j <= surfaces@.len(),
                r@ =~= done + Seq::new(j as nat, |k: int| surfaces@[k].surface),
            decreases surfaces@.len() - j,
        {
            r.push(surfaces[j].surface);
            j = j + 1;
        }
        assert(r@ =~= done + Seq::new(surfaces@.len(), |k: int| surfaces@[k].surface));
        i = i + 1;
    }
    r
}

/// While the session is locked, what the screen locker shows takes part in
/// every frame.
pub proof fn lock_surface_takes_part(shell: SpitfireState, windows: Seq<u64>, layers: Seq<u64>)
    requires
        shell.locked,
        shell.lock_surfaces@.len() > 0,
    ensures
        (window_roots(windows) + layer_roots(layers) + extra_roots(shell)).contains(
            FrameRoot::Lock { surface: shell.lock_surfaces@[0] },
        ),
{
    let roots = window_roots(windows) + layer_roots(layers) + extra_roots(shell);
    assert(roots[roots.len() - 1] == FrameRoot::Lock { surface: shell.lock_surfaces@[0] });
}

/// What the screen locker shows is told to draw its next frame after every
/// frame.
pub proof fn lock_surface_keeps_drawing(
    trees: Seq<FrameTree>,
    output: u64,
    feedback: bool,
    n: int,
    i: int,
)
    requires
        0 <= i < n <= trees.len(),
        trees[i].root is Lock,
    ensures
        all_steps(trees, output, feedback, n).contains(
            FrameStep::SendFrame { root: trees[i].root },
        ),
    decreases n,
{
    let event = FrameStep::SendFrame { root: trees[i].root };
    let all = all_steps(trees, output, feedback, n);
    let before = all_steps(trees, output, feedback, n - 1);
    if i == n - 1 {
        let own = surface_steps(trees[i].surfaces@, output, trees[i].surfaces@.len() as int);
        assert(tree_steps(trees[i], output, feedback)[own.len() as int] == event);
        assert(all[before.len() + own.len() as int] == event);
    } else {
        lock_surface_keeps_drawing(trees, output, feedback, n - 1, i);
        let k = choose|k: int| 0 <= k < before.len() && before[k] == event;
        assert(all[k] == event);
    }
}

/// Before a frame, a surface is signalled if and only if its commits wait for a
/// point in time, and nothing else is done.
pub proof fn surfaces_with_timers_are_signalled(trees: Seq<FrameTree>, n: int, step: FrameStep)
    requires
        0 <= n <= trees.len(),
    ensures
        all_timer_steps(trees, n).contains(step) <==> step is SignalTimer && exists|i: int, j: int|
            0 <= i < n && 0 <= j < trees[i].surfaces@.len() && (
            #[trigger] trees[i].surfaces@[j]).timer && trees[i].surfaces@[j].surface
                == step->SignalTimer_surface,
    decreases n,
{
    broadcast use vstd::seq_lib::group_seq_properties;

    if n > 0 {
        surfaces_with_timers_are_signalled(trees, n - 1, step);
        lemma_timer_steps(trees[n - 1].surfaces@, trees[n - 1].surfaces@.len() as int, step);
        if all_timer_steps(trees, n - 1).contains(step) {
            let (i, j) = choose|i: int, j: int|
                0 <= i < n - 1 && 0 <= j < trees[i].surfaces@.len() && (
                #[trigger] trees[i].surfaces@[j]).timer && trees[i].surfaces@[j].surface
                    == step->SignalTimer_surface;
            assert(trees[i].surfaces@[j].timer);
        }
    }
}

proof fn lemma_timer_steps(surfaces: Seq<SurfaceFacts>, n: int, step: FrameStep)
    requires
        0 <= n <= surfaces.len(),
    ensures
        timer_steps(surfaces, n).contains(step) <==> step is SignalTimer && exists|j: int|
            0 <= j < n && (#[trigger] surfaces[j]).timer && surfaces[j].surface
                == step->SignalTimer_surface,
    decreases n,
{
    broadcast use vstd::seq_lib::group_seq_properties;

    if n > 0 {
        lemma_timer_steps(surfaces, n - 1, step);
        let before = timer_steps(surfaces, n - 1);
        let own = FrameStep::SignalTimer { surface: surfaces[n - 1].surface };
        if surfaces[n - 1].timer {
            vstd::seq_lib::lemma_seq_contains_after_push(before, own, step);
        }
    }
}

/// What is done after a frame, and nothing else: a surface learns the scale of
/// the output that mainly shows it, a commit that waits for the frame goes on
/// where no other output mainly shows the surface, and the windows on the
/// output, the layer surfaces and the screen locker draw their next frame and,
/// with feedback, learn which buffers suit the output.
pub proof fn surfaces_are_told_what_is_theirs(
    trees: Seq<FrameTree>,
    output: u64,
    feedback: bool,
    n: int,
    step: FrameStep,
)
    requires
        0 <= n <= trees.len(),
    ensures
        all_steps(trees, output, feedback, n).contains(step) <==> exists|i: int|
            0 <= i < n && #[trigger] is_for_tree(trees[i], output, feedback, step),
    decreases n,
{
    broadcast use vstd::seq_lib::group_seq_properties;

    if n > 0 {
        surfaces_are_told_what_is_theirs(trees, output, feedback, n - 1, step);
        lemma_tree_steps(trees[n - 1], output, feedback, step);
        if all_steps(trees, output, feedback, n - 1).contains(step) {
            let i = choose|i: int|
                0 <= i < n - 1 && #[trigger] is_for_tree(trees[i], output, feedback, step);
            assert(is_for_tree(trees[i], output, feedback, step));
        }
    }
}

/// Whether a step after a frame is for a surface.
pub open spec fn is_for_surface(s: SurfaceFacts, output: u64, step: FrameStep) -> bool {
    match step {
        FrameStep::PreferScale { surface, output: shown } => surface == s.surface && s.primary
            == Some(shown),
        FrameStep::Signal { surface } => surface == s.surface && s.barrier && !(s.primary is Some
            && s.primary->0 != output),
        _ => false,
    }
}

/// Whether a step after a frame is for a tree or for one of its surfaces.
pub open spec fn is_for_tree(
    tree: FrameTree,
    output: u64,
    feedback: bool,
    step: FrameStep,
) -> bool {
    match step {
        FrameStep::SendFrame { root } => root == tree.root && draws_on(tree),
        FrameStep::SendFeedback { root } => feedback && root == tree.root && draws_on(tree),
        _ => exists|j: int|
            0 <= j < tree.surfaces@.len() && #[trigger] is_for_surface(
                tree.surfaces@[j],
                output,
                step,
            ),
    }
}

/// Whether the output shows a tree for its own sake: not the cursor, not the
/// icon of a drag, and not a window that is elsewhere.
pub open spec fn draws_on(tree: FrameTree) -> bool {
    !(tree.root is Cursor) && !(tree.root is Icon) && (tree.root is Window ==> tree.on_output)
}

proof fn lemma_tree_steps(tree: FrameTree, output: u64, feedback: bool, step: FrameStep)
    ensures
        tree_steps(tree, output, feedback).contains(step) <==> is_for_tree(
            tree,
            output,
            feedback,
            step,
        ),
{
    broadcast use vstd::seq_lib::group_seq_properties;

    lemma_surface_steps(tree.surfaces@, output, tree.surfaces@.len() as int, step);
    let frame = FrameStep::SendFrame { root: tree.root };
    let advice = FrameStep::SendFeedback { root: tree.root };
    let told: Seq<FrameStep> = if !gets_frame(tree.root, tree.on_output) {
        Seq::empty()
    } else if feedback {
        seq![frame, advice]
    } else {
        seq![frame]
    };
    assert(told.contains(step) <==> draws_on(tree) && (step == frame || (feedback && step
        == advice))) by {
        if told.contains(step) {
            let k = choose|k: int| 0 <= k < told.len() && told[k] == step;
        }
        if draws_on(tree) {
            assert(told[0] == frame);
            if feedback {
                assert(told[1] == advice);
            }
        }
    }
}

proof fn lemma_surface_steps(
    surfaces: Seq<SurfaceFacts>,
    output: u64,
    n: int,
    step: FrameStep,
)
    requires
        0 <= n <= surfaces.len(),
    ensures
        surface_steps(surfaces, output, n).contains(step) <==> exists|j: int|
            0 <= j < n && #[trigger] is_for_surface(surfaces[j], output, step),
    decreases n,
{
    broadcast use vstd::seq_lib::group_seq_properties;

    if n > 0 {
        lemma_surface_steps(surfaces, output, n - 1, step);
        let s = surfaces[n - 1];
        let scale: Seq<FrameStep> = match s.primary {
            Some(id) => seq![FrameStep::PreferScale { surface: s.surface, output: id }],
            None => Seq::empty(),
        };
        let signal: Seq<FrameStep> = if has_barrier(output)(s) {
            seq![FrameStep::Signal { surface: s.surface }]
        } else {
            Seq::empty()
        };
        assert(scale.contains(step) || signal.contains(step) <==> is_for_surface(s, output, step))
            by {
            if s.primary is Some {
                assert(scale[0] == (FrameStep::PreferScale {
                    surface: s.surface,
                    output: s.primary->0,
                }));
            }
            if has_barrier(output)(s) {
                assert(signal[0] == (FrameStep::Signal { surface: s.surface }));
            }
        }
        if surface_steps(surfaces, output, n - 1).contains(step) {
            let j = choose|j: int|
                0 <= j < n - 1 && #[trigger] is_for_surface(surfaces[j], output, step);
            assert(is_for_surface(surfaces[j], output, step));
        }
    }
}

/// The roots that are told when a frame is shown are those that the output
/// shows for their own sake.
pub proof fn what_draws_is_told_when_it_is_shown(trees: Seq<FrameTree>, n: int, root: FrameRoot)
    requires
        0 <= n <= trees.len(),
    ensures
        presented(trees, n).contains(root) <==> exists|i: int|
            0 <= i < n && #[trigger] draws_on(trees[i]) && trees[i].root == root,
    decreases n,
{
    broadcast use vstd::seq_lib::group_seq_properties;

    if n > 0 {
        what_draws_is_told_when_it_is_shown(trees, n - 1, root);
        let before = presented(trees, n - 1);
        if draws_on(trees[n - 1]) {
            vstd::seq_lib::lemma_seq_contains_after_push(before, trees[n - 1].root, root);
        }
        if before.contains(root) {
            let i = choose|i: int|
                0 <= i < n - 1 && #[trigger] draws_on(trees[i]) && trees[i].root == root;
            assert(draws_on(trees[i]));
        }
    }
}

/// Every surface of every tree has its main output settled anew.
pub proof fn every_surface_is_settled(trees: Seq<FrameTree>, n: int, surface: u64)
    requires
        0 <= n <= trees.len(),
    ensures
        all_surfaces(trees, n).contains(surface) <==> exists|i: int, j: int|
            0 <= i < n && 0 <= j < trees[i].surfaces@.len() && (
            #[trigger] trees[i].surfaces@[j]).surface == surface,
    decreases n,
{
    broadcast use vstd::seq_lib::group_seq_properties;

    if n > 0 {
        every_surface_is_settled(trees, n - 1, surface);
        let s = trees[n - 1].surfaces@;
        let own = Seq::new(s.len(), |i: int| s[i].surface);
        assert(own.contains(surface) <==> exists|j: int|
            0 <= j < s.len() && (#[trigger] s[j]).surface == surface) by {
            if own.contains(surface) {
                let j = choose|j: int| 0 <= j < own.len() && own[j] == surface;
                assert(s[j].surface == surface);
            }
            if exists|j: int| 0 <= j < s.len() && (#[trigger] s[j]).surface == surface {
                let j = choose|j: int| 0 <= j < s.len() && (#[trigger] s[j]).surface == surface;
                assert(own[j] == surface);
            }
        }
        if all_surfaces(trees, n - 1).contains(surface) {
            let (i, j) = choose|i: int, j: int|
                0 <= i < n - 1 && 0 <= j < trees[i].surfaces@.len() && (
                #[trigger] trees[i].surfaces@[j]).surface == surface;
            assert(trees[i].surfaces@[j].surface == surface);
        }
    }
}

/// What takes part in a frame: every window, every layer surface, a cursor that
/// a client draws, the icon of a drag, and while the session is locked the first
/// surface of the screen locker.
pub proof fn roots_of_a_frame(
    shell: SpitfireState,
    windows: Seq<u64>,
    layers: Seq<u64>,
    root: FrameRoot,
)
    ensures
        (window_roots(windows) + layer_roots(layers) + extra_roots(shell)).contains(root) <==> (
        match root {
            FrameRoot::Window { window } => windows.contains(window),
            FrameRoot::Layer { surface } => layers.contains(surface),
            FrameRoot::Cursor { surface } => shell.cursor is Surface
                && shell.cursor->Surface_surface == surface,
            FrameRoot::Icon { surface } => shell.dnd_icon is Some && shell.dnd_icon->0.surface
                == surface,
            FrameRoot::Lock { surface } => shell.locked && shell.lock_surfaces@.len() > 0
                && shell.lock_surfaces@[0] == surface,
        }),
{
    broadcast use vstd::seq_lib::group_seq_properties;

    let shown = window_roots(windows);
    let layered = layer_roots(layers);
    let extra = extra_roots(shell);
    let all = shown + layered + extra;
    if all.contains(root) {
        if shown.contains(root) {
            let k = choose|k: int| 0 <= k < shown.len() && shown[k] == root;
            assert(windows[k] == root->window);
        } else if layered.contains(root) {
            let k = choose|k: int| 0 <= k < layered.len() && layered[k] == root;
            assert(layers[k] == root->Layer_surface);
        } else {
            let k = choose|k: int| 0 <= k < extra.len() && extra[k] == root;
        }
    }
    match root {
        FrameRoot::Window { window } => {
            if windows.contains(window) {
                let k = choose|k: int| 0 <= k < windows.len() && windows[k] == window;
                assert(shown[k] == root);
            }
        },
        FrameRoot::Layer { surface } => {
            if layers.contains(surface) {
                let k = choose|k: int| 0 <= k < layers.len() && layers[k] == surface;
                assert(layered[k] == root);
            }
        },
        FrameRoot::Cursor { surface } => {
            if shell.cursor is Surface && shell.cursor->Surface_surface == surface {
                assert(extra[0] == root);
            }
        },
        FrameRoot::Icon { surface } => {
            if shell.dnd_icon is Some && shell.dnd_icon->0.surface == surface {
                let k: int = if shell.cursor is Surface {
                    1
                } else {
                    0
                };
                assert(extra[k] == root);
            }
        },
        FrameRoot::Lock { surface } => {
            if shell.locked && shell.lock_surfaces@.len() > 0 && shell.lock_surfaces@[0]
                == surface {
                assert(extra[extra.len() - 1] == root);
            }
        },
    }
}

} // verus!
