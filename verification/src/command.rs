//! What the configuration script asks the compositor to do.

use crate::binary64::Binary64;
use crate::params::LayoutMode;
use crate::text;
use vstd::prelude::*;

verus! {

/// An effect that a call in the script asks for.
#[derive(Debug, PartialEq)]
pub enum Command {
    /// Run a command line.
    Spawn(String),
    LayoutSet(LayoutMode),
    LayoutCycle,
    /// Change the share of the master column.
    MfactInc(Binary64),
    /// Change the number of master windows.
    NmasterInc(i32),
    /// Switch to a workspace, counted from one.
    WorkspaceFocus(usize),
    /// Switch to the workspace that many places on.
    WorkspaceCycle(i32),
    /// Move the focused window to a workspace, counted from one.
    WorkspaceMoveWindow(usize),
    WindowClose,
    WindowFocusNext,
    WindowFocusPrev,
    WindowSwapNext,
    WindowSwapPrev,
    WindowToggleScratchpad,
    /// Toggle a named scratchpad.
    ScratchpadToggle {
        name: String,
        spawn_cmd: String,
        app_id: String,
        width_frac: Option<Binary64>,
        height_frac: Option<Binary64>,
    },
    Quit,
    ReloadConfig,
}

/// The layout mode that a name stands for, without regard to case.
pub open spec fn mode_named(name: Seq<char>) -> Option<LayoutMode> {
    let lower = text::lower_all(name);
    if lower == "tile"@ {
        Some(LayoutMode::Tile)
    } else if lower == "floating"@ {
        Some(LayoutMode::Floating)
    } else if lower == "fibonacci"@ || lower == "spiral"@ {
        Some(LayoutMode::Fibonacci)
    } else if lower == "monocle"@ {
        Some(LayoutMode::Monocle)
    } else {
        None
    }
}

/// Reads the name of a layout mode.
pub fn parse_layout_mode(name: &str) -> (r: Option<LayoutMode>)
    ensures
        r == mode_named(name@),
{
    let chars: Vec<char> = text::chars_of(name);
    let lower: Vec<char> = text::to_lower(chars.as_slice());
    let name: &[char] = lower.as_slice();
    if text::same_text(name, "tile") {
        Some(LayoutMode::Tile)
    } else if text::same_text(name, "floating") {
        Some(LayoutMode::Floating)
    } else if text::same_text(name, "fibonacci") || text::same_text(name, "spiral") {
        Some(LayoutMode::Fibonacci)
    } else if text::same_text(name, "monocle") {
        Some(LayoutMode::Monocle)
    } else {
        None
    }
}

/// The name of a layout mode.
pub open spec fn mode_name(mode: LayoutMode) -> Seq<char> {
    match mode {
        LayoutMode::Tile => "tile"@,
        LayoutMode::Floating => "floating"@,
        LayoutMode::Fibonacci => "fibonacci"@,
        LayoutMode::Monocle => "monocle"@,
    }
}

/// The name of a layout mode.
pub fn layout_mode_name(mode: LayoutMode) -> (s: &'static str)
    ensures
        s@ == mode_name(mode),
{
    match mode {
        LayoutMode::Tile => "tile",
        LayoutMode::Floating => "floating",
        LayoutMode::Fibonacci => "fibonacci",
        LayoutMode::Monocle => "monocle",
    }
}

/// The name of a mode reads back as that mode.
pub proof fn mode_names_read_back(mode: LayoutMode)
    ensures
        mode_named(mode_name(mode)) == Some(mode),
{
    reveal_strlit("tile");
    reveal_strlit("floating");
    reveal_strlit("fibonacci");
    reveal_strlit("spiral");
    reveal_strlit("monocle");
    let name = mode_name(mode);
    assert(text::lower_all(name) =~= name);
    assert("tile"@ != "floating"@) by {
        assert("tile"@.len() != "floating"@.len());
    }
    assert("tile"@ != "fibonacci"@) by {
        assert("tile"@.len() != "fibonacci"@.len());
    }
    assert("tile"@ != "monocle"@) by {
        assert("tile"@.len() != "monocle"@.len());
    }
    assert("floating"@ != "fibonacci"@) by {
        assert("floating"@.len() != "fibonacci"@.len());
    }
    assert("floating"@ != "monocle"@) by {
        assert("floating"@.len() != "monocle"@.len());
    }
    assert("monocle"@ != "fibonacci"@) by {
        assert("monocle"@.len() != "fibonacci"@.len());
    }
    assert("monocle"@ != "spiral"@) by {
        assert("monocle"@.len() != "spiral"@.len());
    }
}

/// Target of a relative workspace switch, counted from zero: never before the
/// first, and going on never beyond the last one that is allowed.
pub open spec fn cycle_target(current: int, delta: int, limit: int) -> int {
    let wanted = if current + delta < 0 {
        0
    } else {
        current + delta
    };
    if delta > 0 && limit > 0 && wanted > limit - 1 {
        limit - 1
    } else {
        wanted
    }
}

/// Target of a relative workspace switch. A limit of zero means none.
pub fn workspace_cycle_target(current: usize, delta: i32, limit: usize) -> (target: usize)
    requires
        current + delta <= usize::MAX,
    ensures
        target == cycle_target(current as int, delta as int, limit as int),
{
    let wanted: usize = if delta < 0 {
        let back: usize = (-(delta as i64)) as usize;
        if current > back {
            current - back
        } else {
            0
        }
    } else {
        current + delta as usize
    };
    if delta > 0 && limit > 0 && wanted > limit - 1 {
        limit - 1
    } else {
        wanted
    }
}

/// A relative switch goes exactly as far as it is asked to, unless that is
/// before the first workspace or, going on, beyond the last one that is allowed:
/// then it goes to that one. It never goes the wrong way from a workspace that
/// is allowed.
pub proof fn workspace_cycle_goes_as_far_as_it_may(current: int, delta: int, limit: int)
    requires
        current >= 0,
        limit >= 0,
    ensures
        ({
            let target = cycle_target(current, delta, limit);
            let last_allowed = limit == 0 || current + delta < limit;
            &&& target >= 0
            &&& delta > 0 && limit > 0 ==> target < limit
            &&& delta > 0 && last_allowed ==> target - current == delta
            &&& delta > 0 && !last_allowed ==> target + 1 == limit
            &&& delta <= 0 && -delta <= current ==> current - target == -delta
            &&& delta <= 0 && -delta > current ==> target == 0
        }),
{
}

/// Going on and then back by as much returns, unless the end of the list was in
/// the way.
pub proof fn workspace_cycle_there_and_back(current: int, delta: int, limit: int)
    requires
        current >= 0,
        delta > 0,
        limit == 0 || current + delta < limit,
    ensures
        cycle_target(cycle_target(current, delta, limit), -delta, limit) == current,
{
}

/// The case of the letters in a mode's name does not matter.
pub proof fn mode_names_ignore_case(name: Seq<char>)
    ensures
        mode_named(text::lower_all(name)) == mode_named(name),
{
    assert(text::lower_all(text::lower_all(name)) =~= text::lower_all(name));
}

/// A name stands for a mode if and only if it is one of those of the modes, in
/// whatever case; a spiral is another name for fibonacci.
pub proof fn modes_have_their_names(name: Seq<char>)
    ensures
        mode_named(name) == Some(LayoutMode::Tile) <==> text::lower_all(name) == seq![
            't',
            'i',
            'l',
            'e',
        ],
        mode_named(name) == Some(LayoutMode::Floating) <==> text::lower_all(name) == "floating"@,
        mode_named(name) == Some(LayoutMode::Monocle) <==> text::lower_all(name) == "monocle"@,
        mode_named(name) == Some(LayoutMode::Fibonacci) <==> text::lower_all(name) == "fibonacci"@
            || text::lower_all(name) == "spiral"@,
{
    mode_names_read_back(LayoutMode::Tile);
    reveal_strlit("tile");
    reveal_strlit("floating");
    reveal_strlit("fibonacci");
    reveal_strlit("spiral");
    reveal_strlit("monocle");
    assert("tile"@ =~= seq!['t', 'i', 'l', 'e']);
    assert("tile"@.len() == 4);
    assert("floating"@.len() == 8);
    assert("fibonacci"@.len() == 9);
    assert("spiral"@.len() == 6);
    assert("monocle"@.len() == 7);
}

} // verus!
