use spitfire::desktop::Desktop;
use spitfire::ipc::{
    default_socket_path, frame, handle_request, list_workspaces, parse_args, unframe, OutputEntry,
    Payload, Request, Response, UsageError, WindowEntry,
};
use spitfire::params::LayoutMode;
use spitfire::text::{parse_number, to_decimal};

fn args(words: &[&str]) -> Vec<String> {
    words.iter().map(|w| w.to_string()).collect()
}

fn run(desktop: &mut Desktop, request: Request) -> spitfire::ipc::Outcome {
    handle_request(desktop, request, Vec::new(), Vec::new(), 0, None)
}

#[test]
fn message_round_trips_through_the_line_framing() {
    let message = r#"{"command":"set-layout","mode":"monocle"}"#;
    let line = frame(message);
    assert_eq!(line.as_bytes().last(), Some(&b'\n'));
    assert_eq!(unframe(&line), Some(message.to_string()));
}

#[test]
fn messages_are_read_one_line_at_a_time() {
    let stream = format!("{}{}{}", frame("\"quit\""), frame(""), frame("\"reload\""));
    let mut read = Vec::new();
    for line in stream.split_inclusive('\n') {
        read.push(unframe(line).unwrap());
    }
    assert_eq!(read, vec!["\"quit\"", "", "\"reload\""]);
}

#[test]
fn reading_from_a_closed_stream_is_unexpected_eof() {
    assert_eq!(unframe(""), None);
}

#[test]
fn default_socket_path_uses_xdg_runtime_dir_when_set() {
    assert_eq!(
        default_socket_path(Some("/run/user/1000"), Some("me")),
        "/run/user/1000/spitfire.sock"
    );
}

#[test]
fn the_socket_path_falls_back_to_tmp() {
    assert_eq!(default_socket_path(None, Some("me")), "/tmp/spitfire-me.sock");
    assert_eq!(default_socket_path(Some(""), Some("me")), "/tmp/spitfire-me.sock");
    assert_eq!(default_socket_path(None, None), "/tmp/spitfire-unknown.sock");
}

#[test]
fn arguments_become_requests() {
    assert_eq!(parse_args(&args(&["reload"])), Ok(Request::ReloadConfig));
    assert_eq!(parse_args(&args(&["quit"])), Ok(Request::Quit));
    assert_eq!(
        parse_args(&args(&["layout", "tile"])),
        Ok(Request::SetLayout {
            mode: "tile".to_string()
        })
    );
    assert_eq!(
        parse_args(&args(&["workspace", "focus", "3"])),
        Ok(Request::FocusWorkspace { index: 3 })
    );
    assert_eq!(
        parse_args(&args(&["list-windows"])),
        Ok(Request::ListWindows)
    );
    assert_eq!(
        parse_args(&args(&["list-outputs"])),
        Ok(Request::ListOutputs)
    );
    assert_eq!(
        parse_args(&args(&["list-workspaces"])),
        Ok(Request::ListWorkspaces)
    );
}

#[test]
fn wrong_arguments_are_told_apart() {
    assert_eq!(parse_args(&[]), Err(UsageError::NoCommand));
    assert_eq!(
        parse_args(&args(&["layout"])),
        Err(UsageError::MissingMode)
    );
    assert_eq!(
        parse_args(&args(&["workspace", "focus", "x"])),
        Err(UsageError::BadWorkspace)
    );
    assert_eq!(
        parse_args(&args(&["workspace", "close"])),
        Err(UsageError::BadWorkspaceCommand)
    );
    assert_eq!(
        parse_args(&args(&["dance"])),
        Err(UsageError::UnknownCommand)
    );
}

#[test]
fn layouts_are_set_by_name() {
    let mut desktop = Desktop::default();
    let outcome = run(
        &mut desktop,
        Request::SetLayout {
            mode: "monocle".to_string(),
        },
    );
    assert_eq!(outcome.response, Response::ok());
    assert_eq!(
        desktop.workspaces.active().tiling.params.mode,
        LayoutMode::Monocle
    );
    let outcome = run(
        &mut desktop,
        Request::SetLayout {
            mode: "grid".to_string(),
        },
    );
    assert!(!outcome.response.ok);
    assert_eq!(
        outcome.response.error.as_deref(),
        Some("unknown layout mode 'grid' (expected tile, floating, fibonacci, or monocle)")
    );
}

#[test]
fn workspaces_are_focused_by_number() {
    let mut desktop = Desktop::default();
    let outcome = run(&mut desktop, Request::FocusWorkspace { index: 3 });
    assert!(outcome.response.ok);
    assert_eq!(desktop.workspaces.active_index(), 2);
    let outcome = run(&mut desktop, Request::FocusWorkspace { index: 0 });
    assert!(!outcome.response.ok);
    assert_eq!(desktop.workspaces.active_index(), 2);
}

#[test]
fn reload_and_quit_are_passed_on() {
    let mut desktop = Desktop::default();
    let outcome = run(&mut desktop, Request::ReloadConfig);
    assert!(outcome.reload && !outcome.quit && outcome.response.ok);
    let outcome = run(&mut desktop, Request::Quit);
    assert!(outcome.quit && !outcome.reload && outcome.response.ok);
}

#[test]
fn lists_carry_what_there_is() {
    let mut desktop = Desktop::default();
    desktop.request_workspace_create(Some("web".to_string()));
    let entries = list_workspaces(&desktop.workspaces);
    assert_eq!(entries.len(), 2);
    assert_eq!(entries[1].index, 2);
    assert_eq!(entries[1].name, "web");
    assert!(entries[0].active && !entries[1].active);
    let window = WindowEntry {
        app_id: Some("foot".to_string()),
        title: None,
    };
    let output = OutputEntry {
        name: "winit".to_string(),
        geometry: None,
    };
    let outcome = handle_request(
        &mut desktop,
        Request::ListWindows,
        vec![window],
        vec![output],
        0,
        None,
    );
    match outcome.response.data {
        Some(Payload::Windows(list)) => assert_eq!(list.len(), 1),
        other => panic!("{other:?}"),
    }
    let outcome = run(&mut desktop, Request::ListWorkspaces);
    assert!(matches!(
        outcome.response.data,
        Some(Payload::Workspaces(list)) if list == entries
    ));
    let outcome = run(&mut desktop, Request::ListOutputs);
    assert!(matches!(
        outcome.response.data,
        Some(Payload::Outputs(list)) if list.is_empty()
    ));
}

#[test]
fn numbers_are_written_and_read_in_decimal() {
    assert_eq!(to_decimal(0), "0");
    assert_eq!(to_decimal(1070), "1070");
    assert_eq!(to_decimal(u64::MAX), "18446744073709551615");
    let read = |s: &str, limit: u64| {
        let chars: Vec<char> = s.chars().collect();
        parse_number(&chars, 10, limit)
    };
    assert_eq!(read("1070", 1070), Some(1070));
    assert_eq!(read("1070", 1069), None);
    assert_eq!(read("+7", 9), Some(7));
    assert_eq!(read("+", 9), None);
    assert_eq!(read("", 9), None);
    assert_eq!(read("18446744073709551616", u64::MAX), None);
}
