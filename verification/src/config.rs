//! The settings that the configuration can change.

use crate::binary64::Binary64;
use crate::bind;
use crate::bind::Modifiers;
use crate::command::Command;
use crate::params::Gaps;
use crate::rule::RuleEntry;
use crate::script::Script;
use crate::sysinfo;
use crate::text;
use vstd::prelude::*;

verus! {

/// Settings of the window borders.
#[derive(Debug, Clone, Copy, PartialEq, Eq, Structural)]
pub struct BorderConfig {
    pub width: i32,
    pub active: u32,
    pub inactive: u32,
    /// Radius of the corners; zero for square ones.
    pub radius: i32,
}

impl Default for BorderConfig {
    fn default() -> (c: BorderConfig)
        ensures
            c == (BorderConfig { width: 2, active: 0x7aa2f7, inactive: 0x414868, radius: 0 }),
    {
        BorderConfig { width: 2, active: 0x7aa2f7, inactive: 0x414868, radius: 0 }
    }
}

/// Settings of the animations.
#[derive(Debug, Clone, Copy, PartialEq, Eq, Structural)]
pub struct AnimConfig {
    pub enabled: bool,
    pub duration_ms: i32,
}

impl Default for AnimConfig {
    fn default() -> (c: AnimConfig)
        ensures
            c == (AnimConfig { enabled: true, duration_ms: 150 }),
    {
        AnimConfig { enabled: true, duration_ms: 150 }
    }
}

impl AnimConfig {
    /// Length of an animation in milliseconds; zero when animations are off.
    pub fn duration(&self) -> (ms: u64)
        ensures
            ms == (if self.enabled && self.duration_ms > 0 {
                self.duration_ms as int
            } else {
                0
            }),
    {
        if self.enabled && self.duration_ms > 0 {
            self.duration_ms as u64
        } else {
            0
        }
    }
}

/// Settings of the built-in bar.
#[derive(Debug, Clone, Copy, PartialEq, Eq, Structural)]
pub struct BarConfig {
    pub enabled: bool,
    pub height: i32,
    pub bg: u32,
    pub fg: u32,
    pub fg_active: u32,
}

impl Default for BarConfig {
    fn default() -> (c: BarConfig)
        ensures
            c == (BarConfig {
                enabled: false,
                height: 24,
                bg: 0x1e1e2e,
                fg: 0x6c7086,
                fg_active: 0xcdd6f4,
            }),
    {
        BarConfig { enabled: false, height: 24, bg: 0x1e1e2e, fg: 0x6c7086, fg_active: 0xcdd6f4 }
    }
}

impl BarConfig {
    /// Height that the bar takes from the windows; none when it is off.
    pub fn reserved_height(&self) -> (h: i32)
        ensures
            h == (if self.enabled {
                self.height
            } else {
                0
            }),
    {
        if self.enabled {
            self.height
        } else {
            0
        }
    }
}

/// Bit pattern of one, the scale to start with and the smallest one.
pub const SCALE_ONE: u64 = 0x3ff0_0000_0000_0000;

/// Settings of the outputs.
#[derive(Debug, Clone, Copy, PartialEq, Eq, Structural)]
pub struct OutputConfig {
    pub scale: Binary64,
}

impl Default for OutputConfig {
    fn default() -> (c: OutputConfig)
        ensures
            c == (OutputConfig { scale: Binary64 { bits: SCALE_ONE } }),
    {
        OutputConfig { scale: Binary64 { bits: SCALE_ONE } }
    }
}

/// Settings of the keyboard. An empty name leaves the choice to the keymap
/// compiler.
#[derive(Debug, PartialEq, Eq)]
pub struct KeyboardConfig {
    pub rules: String,
    pub model: String,
    pub layout: String,
    pub variant: String,
    pub options: Option<String>,
    /// Time until a held key repeats, in milliseconds.
    pub repeat_delay: i32,
    /// Repeats per second.
    pub repeat_rate: i32,
}

impl Default for KeyboardConfig {
    fn default() -> (c: KeyboardConfig)
        ensures
            c.rules@.len() == 0,
            c.model@.len() == 0,
            c.layout@.len() == 0,
            c.variant@.len() == 0,
            c.options is None,
            c.repeat_delay == 600,
            c.repeat_rate == 25,
    {
        KeyboardConfig {
            rules: String::new(),
            model: String::new(),
            layout: String::new(),
            variant: String::new(),
            options: None,
            repeat_delay: 600,
            repeat_rate: 25,
        }
    }
}

/// How far relative workspace switches go; zero for no limit.
pub const WORKSPACE_MAX_DEFAULT: usize = 9;

/// What the script has left in its tables. A field is absent where the script
/// set no value of the right type.
#[derive(Debug, Default)]
pub struct Globals {
    pub gaps_inner: Option<i32>,
    pub gaps_outer: Option<i32>,
    pub border_width: Option<i32>,
    pub border_active: Option<String>,
    pub border_inactive: Option<String>,
    pub border_radius: Option<i32>,
    pub bar_enable: Option<bool>,
    pub bar_height: Option<i32>,
    pub bar_bg: Option<String>,
    pub bar_fg: Option<String>,
    pub bar_fg_active: Option<String>,
    pub keyboard_rules: Option<String>,
    pub keyboard_model: Option<String>,
    pub keyboard_layout: Option<String>,
    pub keyboard_variant: Option<String>,
    pub keyboard_options: Option<String>,
    pub keyboard_repeat_delay: Option<i32>,
    pub keyboard_repeat_rate: Option<i32>,
    pub output_scale: Option<Binary64>,
    pub anim_enabled: Option<bool>,
    pub anim_duration: Option<i32>,
    pub focus_follows_mouse: Option<bool>,
    pub workspace_max: Option<usize>,
    pub blur_radius: Option<i32>,
}

/// The settings.
#[derive(Debug)]
pub struct Settings {
    pub gaps: Gaps,
    pub border: BorderConfig,
    pub bar: BarConfig,
    pub keyboard: KeyboardConfig,
    pub output: OutputConfig,
    pub anim: AnimConfig,
    /// Moving the pointer over a window gives it the keyboard focus.
    pub focus_follows_mouse: bool,
    pub workspace_max: usize,
    /// Radius of the blur behind translucent windows; without one nothing is
    /// blurred.
    pub blur_radius: i32,
}

/// `s` without leading number signs.
pub open spec fn without_hashes(s: Seq<char>) -> Seq<char>
    decreases s.len(),
{
    if s.len() > 0 && s[0] == '#' {
        without_hashes(s.drop_first())
    } else {
        s
    }
}

/// The color that a text writes down in hexadecimal.
pub open spec fn color_named(s: Seq<char>) -> Option<nat> {
    text::parsed_number(without_hashes(s), 16, u32::MAX as nat)
}

/// Reads a color in hexadecimal, with or without a leading number sign.
pub fn parse_hex_color(s: &str) -> (r: Option<u32>)
    ensures
        r is Some <==> color_named(s@) is Some,
        r is Some ==> r->0 == color_named(s@)->0,
{
    let chars: Vec<char> = text::chars_of(s);
    let mut from: usize = 0;
    assert(chars@.skip(0) =~= chars@);
    while from < chars.len() && chars[from] == '#'
        invariant
            from <= chars@.len(),
            without_hashes(chars@) == without_hashes(chars@.skip(from as int)),
        decreases chars@.len() - from,
    {
        assert(chars@.skip(from as int).drop_first() =~= chars@.skip(from + 1));
        from = from + 1;
    }
    let digits: Vec<char> = sysinfo::copy_range(chars.as_slice(), from, chars.len());
    assert(digits@ =~= chars@.skip(from as int));
    assert(without_hashes(chars@) == digits@);
    match text::parse_number(digits.as_slice(), 16, u32::MAX as u64) {
        Some(n) => Some(n as u32),
        None => None,
    }
}

/// A color setting: the one written down, the default where there is none or
/// it cannot be read.
pub open spec fn color_or(s: Option<String>, default: u32) -> u32 {
    match s {
        Some(t) => match color_named(t@) {
            Some(n) => n as u32,
            None => default,
        },
        None => default,
    }
}

fn read_color(s: &Option<String>, default: u32) -> (r: u32)
    ensures
        r == color_or(*s, default),
{
    match s {
        Some(t) => match parse_hex_color(t.as_str()) {
            Some(c) => c,
            None => default,
        },
        None => default,
    }
}

/// A value or its default.
pub open spec fn value_or<T>(v: Option<T>, default: T) -> T {
    match v {
        Some(t) => t,
        None => default,
    }
}

/// A value that must be positive, or its default.
pub open spec fn positive_or(v: Option<i32>, default: i32) -> i32 {
    match v {
        Some(n) => if n > 0 {
            n
        } else {
            default
        },
        None => default,
    }
}

fn int_or(v: Option<i32>, default: i32) -> (r: i32)
    ensures
        r == value_or(v, default),
{
    match v {
        Some(n) => n,
        None => default,
    }
}

fn bool_or(v: Option<bool>, default: bool) -> (r: bool)
    ensures
        r == value_or(v, default),
{
    match v {
        Some(b) => b,
        None => default,
    }
}

fn positive_int_or(v: Option<i32>, default: i32) -> (r: i32)
    ensures
        r == positive_or(v, default),
{
    match v {
        Some(n) => if n > 0 {
            n
        } else {
            default
        },
        None => default,
    }
}

/// The text of a setting, empty where there is none.
pub open spec fn text_or_empty(s: Option<String>) -> Seq<char> {
    match s {
        Some(t) => t@,
        None => Seq::empty(),
    }
}

fn string_or_empty(s: Option<String>) -> (r: String)
    ensures
        r@ == text_or_empty(s),
{
    match s {
        Some(t) => t,
        None => String::new(),
    }
}

/// The output scale: a scale below one, or not a number, is not accepted.
pub open spec fn scale_or_one(v: Option<Binary64>) -> Binary64 {
    let one = Binary64 { bits: SCALE_ONE };
    match v {
        Some(s) => if s.spec_is_nan() || s.spec_lt(one) {
            one
        } else {
            s
        },
        None => one,
    }
}

/// Whether these are the settings that the script's tables give. What is absent
/// or cannot be accepted keeps its default.
pub open spec fn given_by(globals: Globals, s: Settings) -> bool {
    &&& s.gaps == (Gaps {
        inner: value_or(globals.gaps_inner, 6),
        outer: value_or(globals.gaps_outer, 10),
        })
    &&& s.border == (BorderConfig {
        width: value_or(globals.border_width, 2),
        active: color_or(globals.border_active, 0x7aa2f7),
        inactive: color_or(globals.border_inactive, 0x414868),
        radius: value_or(globals.border_radius, 0),
        })
    &&& s.bar == (BarConfig {
        enabled: value_or(globals.bar_enable, false),
        height: value_or(globals.bar_height, 24),
        bg: color_or(globals.bar_bg, 0x1e1e2e),
        fg: color_or(globals.bar_fg, 0x6c7086),
        fg_active: color_or(globals.bar_fg_active, 0xcdd6f4),
        })
    &&& s.keyboard.rules@ == text_or_empty(globals.keyboard_rules)
    &&& s.keyboard.model@ == text_or_empty(globals.keyboard_model)
    &&& s.keyboard.layout@ == text_or_empty(globals.keyboard_layout)
    &&& s.keyboard.variant@ == text_or_empty(globals.keyboard_variant)
    &&& s.keyboard.options == globals.keyboard_options
    &&& s.keyboard.repeat_delay == positive_or(globals.keyboard_repeat_delay, 600)
    &&& s.keyboard.repeat_rate == positive_or(globals.keyboard_repeat_rate, 25)
    &&& s.output.scale == scale_or_one(globals.output_scale)
    &&& s.anim == (AnimConfig {
        enabled: value_or(globals.anim_enabled, true),
        duration_ms: value_or(globals.anim_duration, 150),
        })
    &&& s.focus_follows_mouse == value_or(globals.focus_follows_mouse, false)
    &&& s.workspace_max == value_or(globals.workspace_max, WORKSPACE_MAX_DEFAULT)
    &&& s.blur_radius == value_or(globals.blur_radius, 0)
}

/// The settings that the script's tables give.
pub fn read_globals(globals: Globals) -> (s: Settings)
    ensures
        given_by(globals, s),
{
    let one = Binary64 { bits: SCALE_ONE };
    let scale: Binary64 = match globals.output_scale {
        Some(scale) => if scale.is_nan() || scale.less_than(one) {
            one
        } else {
            scale
        },
        None => one,
    };
    let workspace_max: usize = match globals.workspace_max {
        Some(n) => n,
        None => WORKSPACE_MAX_DEFAULT,
    };
    Settings {
        gaps: Gaps { inner: int_or(globals.gaps_inner, 6), outer: int_or(globals.gaps_outer, 10) },
        border: BorderConfig {
            width: int_or(globals.border_width, 2),
            active: read_color(&globals.border_active, 0x7aa2f7),
            inactive: read_color(&globals.border_inactive, 0x414868),
            radius: int_or(globals.border_radius, 0),
        },
        bar: BarConfig {
            enabled: bool_or(globals.bar_enable, false),
            height: int_or(globals.bar_height, 24),
            bg: read_color(&globals.bar_bg, 0x1e1e2e),
            fg: read_color(&globals.bar_fg, 0x6c7086),
            fg_active: read_color(&globals.bar_fg_active, 0xcdd6f4),
        },
        keyboard: KeyboardConfig {
            rules: string_or_empty(globals.keyboard_rules),
            model: string_or_empty(globals.keyboard_model),
            layout: string_or_empty(globals.keyboard_layout),
            variant: string_or_empty(globals.keyboard_variant),
            options: globals.keyboard_options,
            repeat_delay: positive_int_or(globals.keyboard_repeat_delay, 600),
            repeat_rate: positive_int_or(globals.keyboard_repeat_rate, 25),
        },
        output: OutputConfig { scale },
        anim: AnimConfig {
            enabled: bool_or(globals.anim_enabled, true),
            duration_ms: int_or(globals.anim_duration, 150),
        },
        focus_follows_mouse: bool_or(globals.focus_follows_mouse, false),
        blur_radius: int_or(globals.blur_radius, 0),
        workspace_max,
    }
}

/// A path below a directory.
pub open spec fn joined(dir: Seq<char>, name: Seq<char>) -> Seq<char> {
    if dir.len() == 0 || dir.last() == '/' {
        dir + name
    } else {
        dir + "/"@ + name
    }
}

/// A path below a directory.
pub fn join_path(dir: &str, name: &str) -> (path: String)
    ensures
        path@ == joined(dir@, name@),
{
    let chars: Vec<char> = text::chars_of(dir);
    let mut path: String = text::string_of(chars.as_slice());
    if chars.len() > 0 && chars[chars.len() - 1] != '/' {
        text::append(&mut path, "/");
    }
    text::append(&mut path, name);
    path
}

/// The configuration: what the script has set up, and its settings.
#[derive(Debug)]
pub struct Config {
    pub script: Script,
    pub settings: Settings,
}

impl Config {
    /// Path of the configuration file, from the configuration directory and the
    /// home directory of the environment.
    pub fn default_path(config_home: Option<&str>, home: Option<&str>) -> (path: String)
        ensures
            path@ == (if config_home is Some && config_home->0@.len() > 0 {
                joined(config_home->0@, "spitfire/config.lua"@)
            } else {
                joined(
                    match home {
                        Some(h) => h@,
                        None => "/"@,
                    },
                    ".config/spitfire/config.lua"@,
                )
            }),
    {
        if let Some(dir) = config_home {
            let chars: Vec<char> = text::chars_of(dir);
            if chars.len() > 0 {
                return join_path(dir, "spitfire/config.lua");
            }
        }
        let home: &str = match home {
            Some(h) => h,
            None => "/",
        };
        join_path(home, ".config/spitfire/config.lua")
    }

    /// The configuration once the script has run and left its tables. Without a
    /// script both are empty, and everything has its default.
    pub fn load(script: Script, globals: Globals) -> (c: Config)
        ensures
            c.script == script,
            given_by(globals, c.settings),
    {
        Config { script, settings: read_globals(globals) }
    }

    /// Hands out the waiting commands, in the order they were asked for.
    pub fn drain_commands(&mut self) -> (commands: Vec<Command>)
        ensures
            old(self).script.drained(final(self).script, commands@),
            final(self).settings == old(self).settings,
    {
        self.script.drain_commands()
    }

    /// The first binding that applies to a key press.
    pub fn find_bind(&self, mods: Modifiers, keysym: u32) -> (r: Option<usize>)
        ensures
            r is Some ==> bind::first_bind(self.script.binds@, mods, keysym, r->0 as int),
            r is None ==> forall|j: int|
                0 <= j < self.script.binds@.len() ==> !(
                #[trigger] self.script.binds@[j]).spec_matches(mods, keysym),
    {
        self.script.find_bind(mods, keysym)
    }

    /// The rules for windows, in the order they were set up.
    pub fn rules(&self) -> (r: &[RuleEntry])
        ensures
            r@ == self.script.rules@,
    {
        self.script.rules.as_slice()
    }
}

/// Number signs in front of a color do not matter.
pub proof fn number_signs_do_not_matter(s: Seq<char>)
    ensures
        color_named(seq!['#'] + s) == color_named(s),
{
    let all = seq!['#'] + s;
    assert(all.drop_first() =~= s);
    assert(all[0] == '#');
}

/// A color that can be read is the setting, whatever the default is; otherwise
/// the default is.
pub proof fn colors_fall_back_to_their_default(s: Option<String>, default: u32, other: u32)
    ensures
        (s matches Some(t) && color_named(t@) is Some) ==> color_or(s, default) == color_or(s, other)
            && color_or(s, default) == color_named(s->0@)->0,
        s is None || color_named(s->0@) is None ==> color_or(s, default) == default,
{
    if let Some(t) = s {
        assert(color_named(t@) matches Some(n) ==> n <= u32::MAX);
    }
}

/// The output scale is a number of at least one; a given one that is, is kept.
pub proof fn scale_is_at_least_one(v: Option<Binary64>)
    ensures
        ({
            let one = Binary64 { bits: SCALE_ONE };
            let scale = scale_or_one(v);
            &&& !scale.spec_is_nan()
            &&& !scale.spec_lt(one)
            &&& v matches Some(s) ==> (!s.spec_is_nan() && !s.spec_lt(one) ==> scale == s)
            &&& v is None ==> scale == one
        }),
{
}

/// A setting that has to be positive is: the given one when it is positive, the
/// default otherwise.
pub proof fn positive_settings_are_positive(v: Option<i32>, default: i32)
    requires
        default > 0,
    ensures
        positive_or(v, default) > 0,
        v matches Some(n) ==> (n > 0 ==> positive_or(v, default) == n),
        v matches Some(n) ==> (n <= 0 ==> positive_or(v, default) == default),
        v is None ==> positive_or(v, default) == default,
{
}

/// A path below a directory is the directory, one separator, and the name.
pub proof fn paths_have_one_separator(dir: Seq<char>, name: Seq<char>)
    requires
        dir.len() > 0,
    ensures
        ({
            let path = joined(dir, name);
            let at = path.len() - name.len();
            &&& at > 0
            &&& path[at - 1] == '/'
            &&& path.skip(at) == name
            &&& path.take(dir.len() as int) == dir
            &&& dir.last() == '/' ==> at == dir.len()
            &&& dir.last() != '/' ==> at == dir.len() + 1
        }),
{
    reveal_strlit("/");
    let path = joined(dir, name);
    let at = path.len() - name.len();
    assert(path.skip(at) =~= name);
    assert(path.take(dir.len() as int) =~= dir);
}

/// What the script gives is used as it is given.
pub proof fn given_settings_are_used(globals: Globals, s: Settings)
    requires
        given_by(globals, s),
    ensures
        globals.gaps_inner matches Some(n) ==> s.gaps.inner == n,
        globals.gaps_outer matches Some(n) ==> s.gaps.outer == n,
        globals.border_width matches Some(n) ==> s.border.width == n,
        globals.border_radius matches Some(n) ==> s.border.radius == n,
        globals.bar_enable matches Some(b) ==> s.bar.enabled == b,
        globals.bar_height matches Some(n) ==> s.bar.height == n,
        globals.keyboard_rules matches Some(t) ==> s.keyboard.rules@ == t@,
        globals.keyboard_model matches Some(t) ==> s.keyboard.model@ == t@,
        globals.keyboard_layout matches Some(t) ==> s.keyboard.layout@ == t@,
        globals.keyboard_variant matches Some(t) ==> s.keyboard.variant@ == t@,
        s.keyboard.options == globals.keyboard_options,
        globals.keyboard_repeat_delay matches Some(n) ==> (n > 0 ==> s.keyboard.repeat_delay == n),
        globals.keyboard_repeat_rate matches Some(n) ==> (n > 0 ==> s.keyboard.repeat_rate == n),
        globals.anim_enabled matches Some(b) ==> s.anim.enabled == b,
        globals.anim_duration matches Some(n) ==> s.anim.duration_ms == n,
        globals.focus_follows_mouse matches Some(b) ==> s.focus_follows_mouse == b,
        globals.workspace_max matches Some(n) ==> s.workspace_max == n,
        globals.blur_radius matches Some(n) ==> s.blur_radius == n,
{
}

/// What the script does not give keeps its default: gaps of six and ten pixels, a
/// border of two without round corners, no bar, no blur, animations of 150
/// milliseconds, and texts that are empty.
pub proof fn absent_settings_keep_their_defaults(globals: Globals, s: Settings)
    requires
        given_by(globals, s),
    ensures
        globals.gaps_inner is None ==> s.gaps.inner == 6,
        globals.gaps_outer is None ==> s.gaps.outer == 10,
        globals.border_width is None ==> s.border.width == 2,
        globals.border_radius is None ==> s.border.radius == 0,
        globals.border_active is None ==> s.border.active == 0x7aa2f7,
        globals.border_inactive is None ==> s.border.inactive == 0x414868,
        globals.bar_enable is None ==> !s.bar.enabled,
        globals.bar_height is None ==> s.bar.height == 24,
        globals.bar_bg is None ==> s.bar.bg == 0x1e1e2e,
        globals.bar_fg is None ==> s.bar.fg == 0x6c7086,
        globals.bar_fg_active is None ==> s.bar.fg_active == 0xcdd6f4,
        globals.keyboard_rules is None ==> s.keyboard.rules@.len() == 0,
        globals.keyboard_model is None ==> s.keyboard.model@.len() == 0,
        globals.keyboard_layout is None ==> s.keyboard.layout@.len() == 0,
        globals.keyboard_variant is None ==> s.keyboard.variant@.len() == 0,
        globals.keyboard_repeat_delay is None ==> s.keyboard.repeat_delay == 600,
        globals.keyboard_repeat_rate is None ==> s.keyboard.repeat_rate == 25,
        globals.anim_enabled is None ==> s.anim.enabled,
        globals.anim_duration is None ==> s.anim.duration_ms == 150,
        globals.focus_follows_mouse is None ==> !s.focus_follows_mouse,
        globals.blur_radius is None ==> s.blur_radius == 0,
{
}

} // verus!
