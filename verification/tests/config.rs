use spitfire::binary64::Binary64;
use spitfire::bind::{find_bind, Bind, Modifiers};
use spitfire::command::{layout_mode_name, parse_layout_mode, workspace_cycle_target, Command};
use spitfire::config::{
    parse_hex_color, read_globals, AnimConfig, BarConfig, BorderConfig, Config, Globals, Settings,
};
use spitfire::gesture::{
    find_gesture, has_gesture_for_fingers, swipe_begin, Gesture, GestureDirection, SwipeStep,
};
use spitfire::keysym::{fold_keysym, normalize_keysym, parse_keysym};
use spitfire::params::{Gaps, LayoutMode};
use spitfire::rule::{
    blurred_by_rule, hidden_from_capture, matches_centered_rule, matches_floating_rule,
    workspace_by_rule, RuleEntry, WindowRule,
};
use spitfire::script::{Script, ScriptCall};
use spitfire::shell::SpitfireState;

fn num(x: f64) -> Binary64 {
    Binary64 { bits: x.to_bits() }
}

fn scale_of(s: &Settings) -> f64 {
    f64::from_bits(s.output.scale.bits)
}

fn logo() -> Modifiers {
    Modifiers {
        logo: true,
        ..Default::default()
    }
}

const KEY_T: u32 = 0x74;
const KEY_R: u32 = 0x72;
const KEY_SHIFTED_R: u32 = 0x52;

#[test]
fn parse_hex_color_accepts_with_and_without_hash() {
    assert_eq!(parse_hex_color("#7aa2f7"), Some(0x7aa2f7));
    assert_eq!(parse_hex_color("7aa2f7"), Some(0x7aa2f7));
    assert_eq!(parse_hex_color("not-a-color"), None);
}

#[test]
fn parse_hex_color_edges() {
    assert_eq!(parse_hex_color(""), None);
    assert_eq!(parse_hex_color("#"), None);
    assert_eq!(parse_hex_color("##ff"), Some(0xff));
    assert_eq!(parse_hex_color("+ff"), Some(0xff));
    assert_eq!(parse_hex_color("-ff"), None);
    assert_eq!(parse_hex_color("ffffffff"), Some(0xffffffff));
    assert_eq!(parse_hex_color("100000000"), None);
}

#[test]
fn parses_single_modifier() {
    let mods = Modifiers::parse("Mod4");
    assert_eq!(
        mods,
        Modifiers {
            logo: true,
            ..Default::default()
        }
    );
}

#[test]
fn parses_combined_modifiers_case_insensitively() {
    let mods = Modifiers::parse("mod4+SHIFT");
    assert_eq!(
        mods,
        Modifiers {
            logo: true,
            shift: true,
            ..Default::default()
        }
    );
}

#[test]
fn unknown_modifier_is_ignored_not_fatal() {
    let mods = Modifiers::parse("Mod4+Hyper");
    assert_eq!(
        mods,
        Modifiers {
            logo: true,
            ..Default::default()
        }
    );
}

#[test]
fn parses_known_directions_case_insensitively() {
    assert_eq!(
        GestureDirection::parse("Left"),
        Some(GestureDirection::Left)
    );
    assert_eq!(
        GestureDirection::parse("RIGHT"),
        Some(GestureDirection::Right)
    );
    assert_eq!(GestureDirection::parse("up"), Some(GestureDirection::Up));
    assert_eq!(
        GestureDirection::parse("Down"),
        Some(GestureDirection::Down)
    );
}

#[test]
fn unknown_direction_is_none_not_fatal() {
    assert_eq!(GestureDirection::parse("sideways"), None);
}

#[test]
fn classifies_dominant_horizontal_axis() {
    assert_eq!(
        GestureDirection::classify(num(50.0), num(10.0)),
        GestureDirection::Right
    );
    assert_eq!(
        GestureDirection::classify(num(-50.0), num(10.0)),
        GestureDirection::Left
    );
}

#[test]
fn classifies_dominant_vertical_axis() {
    assert_eq!(
        GestureDirection::classify(num(5.0), num(40.0)),
        GestureDirection::Down
    );
    assert_eq!(
        GestureDirection::classify(num(5.0), num(-40.0)),
        GestureDirection::Up
    );
}

#[test]
fn a_swipe_is_swallowed_or_forwarded_as_a_whole() {
    let gestures = vec![Gesture {
        fingers: 3,
        direction: GestureDirection::Left,
    }];
    assert!(has_gesture_for_fingers(&gestures, 3));
    assert!(!has_gesture_for_fingers(&gestures, 4));
    assert_eq!(find_gesture(&gestures, 3, GestureDirection::Left), Some(0));
    assert_eq!(find_gesture(&gestures, 3, GestureDirection::Right), None);

    let (begun, step) = swipe_begin(&gestures, 3);
    assert_eq!(step, SwipeStep::Swallow);
    let (moved, step) = begun.update(num(-80.0), num(3.0));
    assert_eq!(step, SwipeStep::Swallow);
    assert_eq!(moved.end(&gestures, false), SwipeStep::Fire(0));
    assert_eq!(moved.end(&gestures, true), SwipeStep::Swallow);

    let (other, step) = swipe_begin(&gestures, 4);
    assert_eq!(step, SwipeStep::Forward);
    assert_eq!(other.end(&gestures, false), SwipeStep::Forward);
}

#[test]
fn zero_fingers_matches_any_number() {
    let any = Gesture {
        fingers: 0,
        direction: GestureDirection::Up,
    };
    assert!(any.matches_fingers(2));
    assert!(any.matches(5, GestureDirection::Up));
    assert!(!any.matches(5, GestureDirection::Down));
}

#[test]
fn missing_config_file_falls_back_to_defaults() {
    let mut script = Script::default();
    let settings = read_globals(Globals::default());
    assert!(script.drain_commands().is_empty());
    assert_eq!(settings.gaps, Gaps::default());
    assert_eq!(script.autostart, Vec::<String>::new());
}

#[test]
fn reads_gaps_and_border_tables() {
    let config = read_globals(Globals {
        gaps_inner: Some(4),
        gaps_outer: Some(12),
        border_width: Some(3),
        border_active: Some("#ff0000".to_string()),
        border_inactive: Some("#00ff00".to_string()),
        ..Default::default()
    });
    assert_eq!(config.gaps.inner, 4);
    assert_eq!(config.gaps.outer, 12);
    assert_eq!(config.border.width, 3);
    assert_eq!(config.border.active, 0xff0000);
    assert_eq!(config.border.inactive, 0x00ff00);
    assert_eq!(config.border.radius, 0);
}

#[test]
fn reads_border_radius() {
    let config = read_globals(Globals {
        border_radius: Some(10),
        ..Default::default()
    });
    assert_eq!(config.border.radius, 10);
}

#[test]
fn bar_is_disabled_by_default() {
    let config = read_globals(Globals::default());
    assert!(!config.bar.enabled);
}

#[test]
fn reads_bar_table() {
    let config = read_globals(Globals {
        bar_enable: Some(true),
        bar_height: Some(30),
        bar_bg: Some("#000000".to_string()),
        bar_fg: Some("#ffffff".to_string()),
        bar_fg_active: Some("#ff00ff".to_string()),
        ..Default::default()
    });
    assert!(config.bar.enabled);
    assert_eq!(config.bar.height, 30);
    assert_eq!(config.bar.bg, 0x000000);
    assert_eq!(config.bar.fg, 0xffffff);
    assert_eq!(config.bar.fg_active, 0xff00ff);
    assert_eq!(config.bar.reserved_height(), 30);
}

#[test]
fn an_unreadable_color_keeps_its_default() {
    let config = read_globals(Globals {
        border_active: Some("blue".to_string()),
        ..Default::default()
    });
    assert_eq!(config.border, BorderConfig::default());
}

#[test]
fn output_scale_defaults_to_one() {
    let config = read_globals(Globals::default());
    assert_eq!(scale_of(&config), 1.0);
}

#[test]
fn reads_output_scale() {
    let config = read_globals(Globals {
        output_scale: Some(num(1.25)),
        ..Default::default()
    });
    assert_eq!(scale_of(&config), 1.25);
}

#[test]
fn rejects_sub_one_output_scale() {
    let config = read_globals(Globals {
        output_scale: Some(num(0.5)),
        ..Default::default()
    });
    assert_eq!(scale_of(&config), 1.0);
}

#[test]
fn keyboard_repeat_defaults_are_not_too_tight() {
    let config = read_globals(Globals::default());
    assert_eq!(config.keyboard.repeat_delay, 600);
    assert_eq!(config.keyboard.repeat_rate, 25);
}

#[test]
fn reads_keyboard_repeat_settings() {
    let config = read_globals(Globals {
        keyboard_repeat_delay: Some(450),
        keyboard_repeat_rate: Some(30),
        ..Default::default()
    });
    assert_eq!(config.keyboard.repeat_delay, 450);
    assert_eq!(config.keyboard.repeat_rate, 30);
}

#[test]
fn rejects_non_positive_keyboard_repeat_settings() {
    let config = read_globals(Globals {
        keyboard_repeat_delay: Some(0),
        keyboard_repeat_rate: Some(-1),
        ..Default::default()
    });
    assert_eq!(config.keyboard.repeat_delay, 600);
    assert_eq!(config.keyboard.repeat_rate, 25);
}

#[test]
fn defaults_of_the_other_settings() {
    let config = read_globals(Globals::default());
    assert_eq!(config.anim, AnimConfig::default());
    assert_eq!(config.anim.duration(), 150);
    assert_eq!(config.bar, BarConfig::default());
    assert!(!config.focus_follows_mouse);
    assert_eq!(config.workspace_max, 9);
    assert_eq!(config.blur_radius, 0);
    let off = AnimConfig {
        enabled: false,
        duration_ms: 150,
    };
    assert_eq!(off.duration(), 0);
}

#[test]
fn collects_autostart_commands() {
    let mut script = Script::default();
    assert!(script.apply(ScriptCall::Autostart {
        cmds: vec!["foo".to_string(), "bar".to_string()],
    }));
    assert_eq!(script.autostart, vec!["foo".to_string(), "bar".to_string()]);
}

fn rule_call(centered: Option<bool>) -> ScriptCall {
    ScriptCall::Rule {
        app_id: Some("pavucontrol".to_string()),
        floating: Some(true),
        centered,
        hide_from_capture: None,
        blur: None,
        workspace: None,
    }
}

#[test]
fn collects_rules() {
    let mut script = Script::default();
    assert!(script.apply(rule_call(None)));
    let rules = &script.rules;
    assert_eq!(rules.len(), 1);
    assert_eq!(rules[0].rule.app_id.as_deref(), Some("pavucontrol"));
    assert!(rules[0].rule.floating);
    assert!(!rules[0].rule.centered);
}

#[test]
fn collects_centered_rule() {
    let mut script = Script::default();
    assert!(script.apply(rule_call(Some(true))));
    let rules = &script.rules;
    assert_eq!(rules.len(), 1);
    assert!(rules[0].rule.floating);
    assert!(rules[0].rule.centered);
}

#[test]
fn bind_fires_and_produces_commands() {
    let mut script = Script::default();
    assert!(script.apply(ScriptCall::Bind {
        mods: "Mod4".to_string(),
        keysym: KEY_T,
    }));
    let idx = script.find_bind(logo(), KEY_T).expect("bind not found");
    assert_eq!(idx, 0);
    assert!(script.apply(ScriptCall::LayoutSet {
        mode: "tile".to_string(),
    }));
    assert!(script.apply(ScriptCall::Spawn {
        cmd: "echo hi".to_string(),
    }));
    assert_eq!(
        script.drain_commands(),
        vec![
            Command::LayoutSet(LayoutMode::Tile),
            Command::Spawn("echo hi".to_string()),
        ]
    );
    assert!(script.drain_commands().is_empty());
}

#[test]
fn bind_does_not_match_with_extra_modifiers_held() {
    let mut script = Script::default();
    script.apply(ScriptCall::Bind {
        mods: "Mod4".to_string(),
        keysym: KEY_T,
    });
    let mods = Modifiers {
        logo: true,
        shift: true,
        ..Default::default()
    };
    assert!(script.find_bind(mods, KEY_T).is_none());
}

#[test]
fn bind_with_shift_matches_the_shifted_uppercase_keysym() {
    let mut script = Script::default();
    script.apply(ScriptCall::Bind {
        mods: "Mod4+Shift".to_string(),
        keysym: KEY_R,
    });
    let mods = Modifiers {
        logo: true,
        shift: true,
        ..Default::default()
    };
    assert_eq!(script.find_bind(mods, KEY_SHIFTED_R), Some(0));
    assert!(script.apply(ScriptCall::Reload));
    assert_eq!(script.drain_commands(), vec![Command::ReloadConfig]);
}

#[test]
fn top_level_calls_outside_any_bind_are_queued_too() {
    let mut script = Script::default();
    script.apply(ScriptCall::Spawn {
        cmd: "qs -p frontend/utumno".to_string(),
    });
    assert_eq!(
        script.drain_commands(),
        vec![Command::Spawn("qs -p frontend/utumno".to_string())]
    );
}

#[test]
fn queued_commands_are_handed_out_once_and_in_order() {
    let mut script = Script::default();
    script.apply(ScriptCall::LayoutCycle);
    script.apply(ScriptCall::Reload);
    assert_eq!(
        script.drain_commands(),
        vec![Command::LayoutCycle, Command::ReloadConfig]
    );
    assert_eq!(script.drain_commands(), vec![]);
    script.apply(ScriptCall::Quit);
    assert_eq!(script.drain_commands(), vec![Command::Quit]);
}

#[test]
fn workspaces_of_the_script_are_counted_from_one() {
    let mut script = Script::default();
    assert!(!script.apply(ScriptCall::WorkspaceFocus { n: 0 }));
    assert!(!script.apply(ScriptCall::WorkspaceMoveWindow { n: 0 }));
    assert!(script.apply(ScriptCall::WorkspaceFocus { n: 3 }));
    assert!(script.apply(ScriptCall::WorkspaceMoveWindow { n: 1 }));
    assert!(script.apply(ScriptCall::WorkspaceNext));
    assert!(script.apply(ScriptCall::WorkspacePrev));
    assert_eq!(
        script.drain_commands(),
        vec![
            Command::WorkspaceFocus(3),
            Command::WorkspaceMoveWindow(1),
            Command::WorkspaceCycle(1),
            Command::WorkspaceCycle(-1),
        ]
    );
}

#[test]
fn unknown_layouts_and_directions_are_not_understood() {
    let mut script = Script::default();
    assert!(!script.apply(ScriptCall::LayoutSet {
        mode: "grid".to_string(),
    }));
    assert!(!script.apply(ScriptCall::Gesture {
        fingers: 3,
        direction: "sideways".to_string(),
    }));
    assert!(script.drain_commands().is_empty());
    assert!(script.gestures.is_empty());
}

#[test]
fn matches_exact_app_id() {
    let rule = WindowRule {
        app_id: Some("pavucontrol".into()),
        floating: true,
        centered: false,
        hide_from_capture: false,
    };
    assert!(rule.matches(Some("pavucontrol")));
    assert!(!rule.matches(Some("foot")));
    assert!(!rule.matches(None));
}

#[test]
fn rule_without_app_id_matches_everything() {
    let rule = WindowRule {
        app_id: None,
        floating: true,
        centered: false,
        hide_from_capture: false,
    };
    assert!(rule.matches(Some("anything")));
    assert!(rule.matches(None));
}

#[test]
fn hide_from_capture_defaults_off() {
    assert!(!WindowRule::default().hide_from_capture);
}

#[test]
fn the_first_matching_rule_decides_about_floating() {
    let rules = vec![
        WindowRule {
            app_id: Some("foot".into()),
            ..Default::default()
        },
        WindowRule {
            app_id: None,
            floating: true,
            centered: true,
            hide_from_capture: true,
        },
    ];
    assert!(!matches_floating_rule(Some("foot"), &rules));
    assert!(matches_floating_rule(Some("mpv"), &rules));
    assert!(!matches_centered_rule(Some("foot"), &rules));
    assert!(matches_centered_rule(None, &rules));
    assert!(hidden_from_capture(Some("foot"), &rules));
}

#[test]
fn rules_about_blur_and_workspaces() {
    let entries = vec![
        RuleEntry {
            rule: WindowRule {
                app_id: Some("foot".into()),
                ..Default::default()
            },
            blur: false,
            workspace: Some(2),
        },
        RuleEntry {
            rule: WindowRule::default(),
            blur: true,
            workspace: None,
        },
    ];
    assert_eq!(workspace_by_rule(Some("foot"), &entries), Some(2));
    assert_eq!(workspace_by_rule(Some("mpv"), &entries), None);
    assert!(blurred_by_rule(Some("foot"), &entries));
}

#[test]
fn layout_names_read_back() {
    for mode in [
        LayoutMode::Tile,
        LayoutMode::Floating,
        LayoutMode::Fibonacci,
        LayoutMode::Monocle,
    ] {
        assert_eq!(parse_layout_mode(layout_mode_name(mode)), Some(mode));
    }
    assert_eq!(parse_layout_mode("grid"), None);
}

#[test]
fn relative_workspace_switches_stay_in_bounds() {
    assert_eq!(workspace_cycle_target(0, -1, 9), 0);
    assert_eq!(workspace_cycle_target(3, 1, 9), 4);
    assert_eq!(workspace_cycle_target(8, 1, 9), 8);
    assert_eq!(workspace_cycle_target(8, 1, 0), 9);
}

#[test]
fn keysyms_fold_to_lower_case() {
    assert_eq!(normalize_keysym(KEY_SHIFTED_R), KEY_R);
    assert_eq!(normalize_keysym(KEY_R), KEY_R);
    assert_eq!(normalize_keysym(0xff0d), 0xff0d);
    assert_eq!(fold_keysym(0x41, Some('A')), 0x61);
    assert_eq!(fold_keysym(0x41, None), 0x41);
    assert_eq!(parse_keysym(KEY_SHIFTED_R, 0), KEY_SHIFTED_R);
    assert_eq!(parse_keysym(0, KEY_T), KEY_T);
}

#[test]
fn binds_are_found_in_order() {
    let binds = vec![
        Bind {
            mods: logo(),
            keysym: KEY_R,
        },
        Bind {
            mods: logo(),
            keysym: KEY_T,
        },
        Bind {
            mods: logo(),
            keysym: KEY_T,
        },
    ];
    assert_eq!(find_bind(&binds, logo(), KEY_T), Some(1));
    assert!(binds[0].matches(logo(), KEY_SHIFTED_R));
    assert_eq!(find_bind(&binds, Modifiers::default(), KEY_T), None);
}

#[test]
fn config_path_follows_the_environment() {
    assert_eq!(
        Config::default_path(Some("/cfg"), Some("/home/me")),
        "/cfg/spitfire/config.lua"
    );
    assert_eq!(
        Config::default_path(None, Some("/home/me")),
        "/home/me/.config/spitfire/config.lua"
    );
}

#[test]
fn a_loaded_configuration_has_its_script_and_settings() {
    let mut script = Script::default();
    script.apply(ScriptCall::Bind {
        mods: "Super".to_string(),
        keysym: KEY_T,
    });
    script.apply(ScriptCall::Quit);
    script.apply(ScriptCall::Rule {
        app_id: Some("foot".to_string()),
        floating: Some(true),
        centered: None,
        hide_from_capture: None,
        blur: None,
        workspace: None,
    });
    let mut config = Config::load(
        script,
        Globals {
            gaps_inner: Some(3),
            ..Default::default()
        },
    );
    assert_eq!(config.settings.gaps.inner, 3);
    assert_eq!(config.settings.gaps.outer, 10);
    assert_eq!(config.find_bind(logo(), KEY_T), Some(0));
    assert_eq!(config.find_bind(logo(), KEY_R), None);
    assert!(config.rules()[0].rule.floating);
    assert_eq!(config.drain_commands().len(), 1);
    assert!(config.drain_commands().is_empty());
    let state = SpitfireState::init(&config.settings);
    assert_eq!(state.desktop.workspaces.gaps, config.settings.gaps);
    assert_eq!(state.desktop.workspaces.len(), 1);
}
