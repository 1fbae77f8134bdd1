//! What the configuration script sets up: bindings, rules, commands to run at
//! startup, and effects that are waiting to be carried out.
//!
//! The functions that the script can call have no access to the compositor.
//! Each call only adds to these lists.

use crate::bind;
use crate::bind::{Bind, Modifiers};
use crate::binary64::Binary64;
use crate::command;
use crate::command::Command;
use crate::gesture;
use crate::gesture::{Gesture, GestureDirection};
use crate::rule::{RuleEntry, WindowRule};
use crate::text;
use vstd::prelude::*;

verus! {

/// A call of one of the functions that the script can use.
#[derive(Debug)]
pub enum ScriptCall {
    /// Bind a key, whose symbol has been looked up.
    Bind { mods: String, keysym: u32 },
    Gesture { fingers: u32, direction: String },
    Spawn { cmd: String },
    Autostart { cmds: Vec<String> },
    Quit,
    Reload,
    LayoutSet { mode: String },
    LayoutCycle,
    MfactInc { delta: Binary64 },
    NmasterInc { delta: i32 },
    /// Workspaces are counted from one.
    WorkspaceFocus { n: usize },
    WorkspaceMoveWindow { n: usize },
    WorkspaceNext,
    WorkspacePrev,
    WindowClose,
    WindowFocusNext,
    WindowFocusPrev,
    WindowSwapNext,
    WindowSwapPrev,
    WindowToggleScratchpad,
    ScratchpadToggle {
        name: String,
        spawn_cmd: String,
        app_id: String,
        width_frac: Option<Binary64>,
        height_frac: Option<Binary64>,
    },
    /// Flags are absent where the script gave none; the workspace is counted
    /// from one.
    Rule {
        app_id: Option<String>,
        floating: Option<bool>,
        centered: Option<bool>,
        hide_from_capture: Option<bool>,
        blur: Option<bool>,
        workspace: Option<usize>,
    },
}

/// The lists that the script fills.
#[derive(Debug)]
pub struct Script {
    pub binds: Vec<Bind>,
    pub gestures: Vec<Gesture>,
    pub rules: Vec<RuleEntry>,
    pub commands: Vec<Command>,
    pub autostart: Vec<String>,
}

/// What a call does.
pub ghost enum Effect {
    Nothing,
    Queue(Command),
    AddBind(Bind),
    AddGesture(Gesture),
    AddRule(RuleEntry),
    AddAutostart(Seq<String>),
}

/// A flag that is off where there is none.
pub open spec fn flag(v: Option<bool>) -> bool {
    v == Some(true)
}

/// What a call does. Names that are not known, and workspace zero, do nothing.
pub open spec fn effect_of(call: ScriptCall) -> Effect {
    match call {
        ScriptCall::Bind { mods, keysym } => Effect::AddBind(
            Bind {
                mods: bind::named_modifiers(
                    text::split(mods@, '+'),
                    text::split(mods@, '+').len() as int,
                ),
                keysym,
            },
        ),
        ScriptCall::Gesture { fingers, direction } => match gesture::direction_named(direction@) {
            Some(direction) => Effect::AddGesture(Gesture { fingers, direction }),
            None => Effect::Nothing,
        },
        ScriptCall::Spawn { cmd } => Effect::Queue(Command::Spawn(cmd)),
        ScriptCall::Autostart { cmds } => Effect::AddAutostart(cmds@),
        ScriptCall::Quit => Effect::Queue(Command::Quit),
        ScriptCall::Reload => Effect::Queue(Command::ReloadConfig),
        ScriptCall::LayoutSet { mode } => match command::mode_named(mode@) {
            Some(mode) => Effect::Queue(Command::LayoutSet(mode)),
            None => Effect::Nothing,
        },
        ScriptCall::LayoutCycle => Effect::Queue(Command::LayoutCycle),
        ScriptCall::MfactInc { delta } => Effect::Queue(Command::MfactInc(delta)),
        ScriptCall::NmasterInc { delta } => Effect::Queue(Command::NmasterInc(delta)),
        ScriptCall::WorkspaceFocus { n } => if n == 0 {
            Effect::Nothing
        } else {
            Effect::Queue(Command::WorkspaceFocus(n))
        },
        ScriptCall::WorkspaceMoveWindow { n } => if n == 0 {
            Effect::Nothing
        } else {
            Effect::Queue(Command::WorkspaceMoveWindow(n))
        },
        ScriptCall::WorkspaceNext => Effect::Queue(Command::WorkspaceCycle(1)),
        ScriptCall::WorkspacePrev => Effect::Queue(Command::WorkspaceCycle((-1) as i32)),
        ScriptCall::WindowClose => Effect::Queue(Command::WindowClose),
        ScriptCall::WindowFocusNext => Effect::Queue(Command::WindowFocusNext),
        ScriptCall::WindowFocusPrev => Effect::Queue(Command::WindowFocusPrev),
        ScriptCall::WindowSwapNext => Effect::Queue(Command::WindowSwapNext),
        ScriptCall::WindowSwapPrev => Effect::Queue(Command::WindowSwapPrev),
        ScriptCall::WindowToggleScratchpad => Effect::Queue(Command::WindowToggleScratchpad),
        ScriptCall::ScratchpadToggle { name, spawn_cmd, app_id, width_frac, height_frac } =>
            Effect::Queue(
            Command::ScratchpadToggle { name, spawn_cmd, app_id, width_frac, height_frac },
        ),
        ScriptCall::Rule { app_id, floating, centered, hide_from_capture, blur, workspace } =>
            Effect::AddRule(
            RuleEntry {
                rule: WindowRule {
                    app_id,
                    floating: flag(floating),
                    centered: flag(centered),
                    hide_from_capture: flag(hide_from_capture),
                },
                blur: flag(blur),
                workspace: match workspace {
                    Some(n) => if n == 0 {
                        None
                    } else {
                        Some((n - 1) as usize)
                    },
                    None => None,
                },
            },
        ),
    }
}

impl Default for Script {
    fn default() -> (s: Script)
        ensures
            s.binds@.len() == 0,
            s.gestures@.len() == 0,
            s.rules@.len() == 0,
            s.commands@.len() == 0,
            s.autostart@.len() == 0,
    {
        Script {
            binds: Vec::new(),
            gestures: Vec::new(),
            rules: Vec::new(),
            commands: Vec::new(),
            autostart: Vec::new(),
        }
    }
}

fn is_set(v: Option<bool>) -> (r: bool)
    ensures
        r == flag(v),
{
    match v {
        Some(b) => b,
        None => false,
    }
}

impl Script {
    /// Whether `later` is this one after an effect.
    pub open spec fn after(self, effect: Effect, later: Script) -> bool {
        &&& later.binds@ == (match effect {
            Effect::AddBind(b) => self.binds@.push(b),
            _ => self.binds@,
        })
        &&& later.gestures@ == (match effect {
            Effect::AddGesture(g) => self.gestures@.push(g),
            _ => self.gestures@,
        })
        &&& later.rules@ == (match effect {
            Effect::AddRule(r) => self.rules@.push(r),
            _ => self.rules@,
        })
        &&& later.commands@ == (match effect {
            Effect::Queue(c) => self.commands@.push(c),
            _ => self.commands@,
        })
        &&& later.autostart@ == (match effect {
            Effect::AddAutostart(more) => self.autostart@ + more,
            _ => self.autostart@,
        })
    }

    /// Whether `later` is this one after its commands have been handed out.
    pub open spec fn drained(self, later: Script, handed: Seq<Command>) -> bool {
        &&& handed == self.commands@
        &&& later.commands@.len() == 0
        &&& later.binds == self.binds
        &&& later.gestures == self.gestures
        &&& later.rules == self.rules
        &&& later.autostart == self.autostart
    }

    /// Carries out a call of the script. Says whether it was understood: a call
    /// that was not changes nothing.
    pub fn apply(&mut self, call: ScriptCall) -> (understood: bool)
        ensures
            old(self).after(effect_of(call), *final(self)),
            understood == !(effect_of(call) is Nothing),
    {
        match call {
            ScriptCall::Bind { mods, keysym } => {
                let mods: Modifiers = Modifiers::parse(mods.as_str());
                self.binds.push(Bind { mods, keysym });
            },
            ScriptCall::Gesture { fingers, direction } => {
                match GestureDirection::parse(direction.as_str()) {
                    Some(direction) => self.gestures.push(Gesture { fingers, direction }),
                    None => {
                        return false;
                    },
                }
            },
            ScriptCall::Spawn { cmd } => self.commands.push(Command::Spawn(cmd)),
            ScriptCall::Autostart { cmds } => {
                let mut cmds: Vec<String> = cmds;
                self.autostart.append(&mut cmds);
            },
            ScriptCall::Quit => self.commands.push(Command::Quit),
            ScriptCall::Reload => self.commands.push(Command::ReloadConfig),
            ScriptCall::LayoutSet { mode } => {
                match command::parse_layout_mode(mode.as_str()) {
                    Some(mode) => self.commands.push(Command::LayoutSet(mode)),
                    None => {
                        return false;
                    },
                }
            },
            ScriptCall::LayoutCycle => self.commands.push(Command::LayoutCycle),
            ScriptCall::MfactInc { delta } => self.commands.push(Command::MfactInc(delta)),
            ScriptCall::NmasterInc { delta } => self.commands.push(Command::NmasterInc(delta)),
            ScriptCall::WorkspaceFocus { n } => {
                if n == 0 {
                    return false;
                }
                self.commands.push(Command::WorkspaceFocus(n));
            },
            ScriptCall::WorkspaceMoveWindow { n } => {
                if n == 0 {
                    return false;
                }
                self.commands.push(Command::WorkspaceMoveWindow(n));
            },
            ScriptCall::WorkspaceNext => self.commands.push(Command::WorkspaceCycle(1)),
            ScriptCall::WorkspacePrev => self.commands.push(Command::WorkspaceCycle(-1)),
            ScriptCall::WindowClose => self.commands.push(Command::WindowClose),
            ScriptCall::WindowFocusNext => self.commands.push(Command::WindowFocusNext),
            ScriptCall::WindowFocusPrev => self.commands.push(Command::WindowFocusPrev),
            ScriptCall::WindowSwapNext => self.commands.push(Command::WindowSwapNext),
            ScriptCall::WindowSwapPrev => self.commands.push(Command::WindowSwapPrev),
            ScriptCall::WindowToggleScratchpad => self.commands.push(
                Command::WindowToggleScratchpad,
            ),
            ScriptCall::ScratchpadToggle { name, spawn_cmd, app_id, width_frac, height_frac } =>
                self.commands.push(
                Command::ScratchpadToggle { name, spawn_cmd, app_id, width_frac, height_frac },
            ),
            ScriptCall::Rule {
                app_id,
                floating,
                centered,
                hide_from_capture,
                blur,
                workspace,
            } => {
                let workspace: Option<usize> = match workspace {
                    Some(n) => if n == 0 {
                        None
                    } else {
                        Some(n - 1)
                    },
                    None => None,
                };
                self.rules.push(
                    RuleEntry {
                        rule: WindowRule {
                            app_id,
                            floating: is_set(floating),
                            centered: is_set(centered),
                            hide_from_capture: is_set(hide_from_capture),
                        },
                        blur: is_set(blur),
                        workspace,
                    },
                );
            },
        }
        true
    }

    /// Hands out the waiting commands, in the order they were asked for.
    pub fn drain_commands(&mut self) -> (commands: Vec<Command>)
        ensures
            old(self).drained(*final(self), commands@),
    {
        let mut commands: Vec<Command> = Vec::new();
        std::mem::swap(&mut commands, &mut self.commands);
        commands
    }

    /// The first binding that applies to a key press.
    pub fn find_bind(&self, mods: Modifiers, keysym: u32) -> (r: Option<usize>)
        ensures
            r is Some ==> bind::first_bind(self.binds@, mods, keysym, r->0 as int),
            r is None ==> forall|j: int|
                0 <= j < self.binds@.len() ==> !(#[trigger] self.binds@[j]).spec_matches(
                    mods,
                    keysym,
                ),
    {
        bind::find_bind(self.binds.as_slice(), mods, keysym)
    }
}

/// A command that a call queues is handed out exactly once: last of the commands
/// of the next handing out, behind those queued before it, and not again in the
/// one after that.
pub proof fn queued_commands_come_out_in_order(
    before: Script,
    after: Script,
    call: ScriptCall,
    c: Command,
    drained: Script,
    handed: Seq<Command>,
    later: Script,
    again: Seq<Command>,
)
    requires
        before.after(effect_of(call), after),
        effect_of(call) == Effect::Queue(c),
        after.drained(drained, handed),
        drained.drained(later, again),
    ensures
        handed == before.commands@.push(c),
        again.len() == 0,
        later.binds@ == before.binds@,
        later.gestures@ == before.gestures@,
        later.rules@ == before.rules@,
        later.autostart@ == before.autostart@,
{
}

/// A rule has the flags that are set, and its workspace counted from zero where
/// the call counts from one; workspace zero is none.
pub proof fn rules_have_the_flags_that_are_set(
    app_id: Option<String>,
    floating: Option<bool>,
    centered: Option<bool>,
    hide_from_capture: Option<bool>,
    blur: Option<bool>,
    workspace: Option<usize>,
    i: usize,
)
    ensures
        ({
            let effect = effect_of(
                ScriptCall::Rule { app_id, floating, centered, hide_from_capture, blur, workspace },
            );
            &&& effect is AddRule
            &&& effect->AddRule_0.rule.app_id == app_id
            &&& effect->AddRule_0.rule.floating <==> floating == Some(true)
            &&& effect->AddRule_0.rule.centered <==> centered == Some(true)
            &&& effect->AddRule_0.rule.hide_from_capture <==> hide_from_capture == Some(true)
            &&& effect->AddRule_0.blur <==> blur == Some(true)
            &&& effect->AddRule_0.workspace == Some(i) <==> workspace is Some && workspace->0 == i
                + 1
        }),
{
}

/// Calls that go one way queue the opposite of those that go the other way.
pub proof fn opposite_calls_queue_opposite_commands()
    ensures
        ({
            let next = effect_of(ScriptCall::WorkspaceNext);
            let prev = effect_of(ScriptCall::WorkspacePrev);
            &&& next is Queue && next->Queue_0 is WorkspaceCycle
            &&& prev is Queue && prev->Queue_0 is WorkspaceCycle
            &&& next->Queue_0->WorkspaceCycle_0 == 1
            &&& next->Queue_0->WorkspaceCycle_0 + prev->Queue_0->WorkspaceCycle_0 == 0
        }),
        effect_of(ScriptCall::WindowFocusNext) == Effect::Queue(Command::WindowFocusNext),
        effect_of(ScriptCall::WindowFocusPrev) == Effect::Queue(Command::WindowFocusPrev),
        effect_of(ScriptCall::WindowSwapNext) == Effect::Queue(Command::WindowSwapNext),
        effect_of(ScriptCall::WindowSwapPrev) == Effect::Queue(Command::WindowSwapPrev),
{
}

/// A call with a workspace is understood if and only if the workspace is not
/// zero, and queues its command with the number as it is.
pub proof fn workspaces_of_calls_are_counted_from_one(n: usize)
    ensures
        effect_of(ScriptCall::WorkspaceFocus { n }) is Nothing <==> n == 0,
        effect_of(ScriptCall::WorkspaceMoveWindow { n }) is Nothing <==> n == 0,
        n > 0 ==> effect_of(ScriptCall::WorkspaceFocus { n }) == Effect::Queue(
            Command::WorkspaceFocus(n),
        ),
        n > 0 ==> effect_of(ScriptCall::WorkspaceMoveWindow { n }) == Effect::Queue(
            Command::WorkspaceMoveWindow(n),
        ),
{
}

/// A call queues the command of its name with what it was given.
pub proof fn calls_queue_the_commands_of_their_name(call: ScriptCall)
    ensures
        call matches ScriptCall::Spawn { cmd } ==> effect_of(call) == Effect::Queue(
            Command::Spawn(cmd),
        ),
        call is Quit ==> effect_of(call) == Effect::Queue(Command::Quit),
        call is Reload ==> effect_of(call) == Effect::Queue(Command::ReloadConfig),
        call is LayoutCycle ==> effect_of(call) == Effect::Queue(Command::LayoutCycle),
        call matches ScriptCall::MfactInc { delta } ==> effect_of(call) == Effect::Queue(
            Command::MfactInc(delta),
        ),
        call matches ScriptCall::NmasterInc { delta } ==> effect_of(call) == Effect::Queue(
            Command::NmasterInc(delta),
        ),
        call is WindowClose ==> effect_of(call) == Effect::Queue(Command::WindowClose),
        call is WindowToggleScratchpad ==> effect_of(call) == Effect::Queue(
            Command::WindowToggleScratchpad,
        ),
        call matches ScriptCall::LayoutSet { mode } ==> match command::mode_named(mode@) {
            Some(m) => effect_of(call) == Effect::Queue(Command::LayoutSet(m)),
            None => effect_of(call) is Nothing,
        },
        call matches ScriptCall::ScratchpadToggle {
            name,
            spawn_cmd,
            app_id,
            width_frac,
            height_frac,
        } ==> effect_of(call) == Effect::Queue(
            Command::ScratchpadToggle { name, spawn_cmd, app_id, width_frac, height_frac },
        ),
        call matches ScriptCall::Autostart { cmds } ==> effect_of(call) == Effect::AddAutostart(
            cmds@,
        ),
{
}

/// A gesture keeps its number of fingers and is understood if and only if its
/// direction has a name.
pub proof fn gestures_keep_their_fingers(fingers: u32, direction: String)
    ensures
        ({
            let effect = effect_of(ScriptCall::Gesture { fingers, direction });
            let named = gesture::direction_named(direction@);
            &&& effect is Nothing <==> named is None
            &&& effect is AddGesture <==> named is Some
            &&& effect is AddGesture ==> effect->AddGesture_0.fingers == fingers && Some(
                effect->AddGesture_0.direction,
            ) == named
        }),
{
}

/// An effect touches one list alone, at its end.
pub proof fn effects_touch_one_list(before: Script, effect: Effect, later: Script)
    requires
        before.after(effect, later),
    ensures
        !(effect is AddBind) ==> later.binds@ == before.binds@,
        !(effect is AddGesture) ==> later.gestures@ == before.gestures@,
        !(effect is AddRule) ==> later.rules@ == before.rules@,
        !(effect is Queue) ==> later.commands@ == before.commands@,
        !(effect is AddAutostart) ==> later.autostart@ == before.autostart@,
        effect matches Effect::AddBind(b) ==> later.binds@.len() == before.binds@.len() + 1
            && later.binds@.last() == b && later.binds@.drop_last() == before.binds@,
        effect matches Effect::AddGesture(g) ==> later.gestures@.len() == before.gestures@.len() + 1
            && later.gestures@.last() == g && later.gestures@.drop_last() == before.gestures@,
        effect matches Effect::AddRule(r) ==> later.rules@.len() == before.rules@.len() + 1
            && later.rules@.last() == r && later.rules@.drop_last() == before.rules@,
        effect matches Effect::AddAutostart(more) ==> later.autostart@.len()
            == before.autostart@.len() + more.len() && later.autostart@.take(
            before.autostart@.len() as int,
        ) == before.autostart@ && later.autostart@.skip(before.autostart@.len() as int) == more,
{
    assert(later.binds@.len() > before.binds@.len() ==> later.binds@.drop_last()
        =~= before.binds@);
    assert(later.gestures@.len() > before.gestures@.len() ==> later.gestures@.drop_last()
        =~= before.gestures@);
    assert(later.rules@.len() > before.rules@.len() ==> later.rules@.drop_last()
        =~= before.rules@);
    if effect is AddAutostart {
        let n = before.autostart@.len() as int;
        assert(later.autostart@.take(n) =~= before.autostart@);
        assert(later.autostart@.skip(n) =~= effect->AddAutostart_0);
    }
}

} // verus!
