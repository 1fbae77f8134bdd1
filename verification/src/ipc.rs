//! The control socket: requests, replies, how they are framed, and what each
//! request does to the desktop.

use crate::action::Action;
use crate::command;
use crate::config;
use crate::desktop;
use crate::desktop::{Desktop, WorkspaceSlide};
use crate::geometry::Rect;
use crate::params::LayoutMode;
use crate::text;
use crate::workspace::WorkspaceSet;
use vstd::prelude::*;

verus! {

/// A request over the control socket.
#[derive(Debug, PartialEq)]
pub enum Request {
    ReloadConfig,
    Quit,
    SetLayout { mode: String },
    ListWindows,
    ListOutputs,
    /// Workspaces are counted from one.
    FocusWorkspace { index: usize },
    ListWorkspaces,
}

/// A workspace as it is listed.
#[derive(Debug, PartialEq)]
pub struct WorkspaceEntry {
    /// Number of the workspace, counted from one.
    pub index: usize,
    pub name: String,
    pub active: bool,
    pub layout: LayoutMode,
    /// How many windows are in its tiling order.
    pub windows: usize,
}

/// A window as it is listed.
#[derive(Debug, PartialEq)]
pub struct WindowEntry {
    pub app_id: Option<String>,
    pub title: Option<String>,
}

/// An output as it is listed.
#[derive(Debug, PartialEq)]
pub struct OutputEntry {
    pub name: String,
    pub geometry: Option<Rect>,
}

/// What a reply carries.
#[derive(Debug, PartialEq)]
pub enum Payload {
    Workspaces(Vec<WorkspaceEntry>),
    Windows(Vec<WindowEntry>),
    Outputs(Vec<OutputEntry>),
}

/// The reply to a request.
#[derive(Debug, PartialEq)]
pub struct Response {
    pub ok: bool,
    pub data: Option<Payload>,
    pub error: Option<String>,
}

impl Response {
    /// Success without a payload.
    pub fn ok() -> (r: Response)
        ensures
            r.ok,
            r.data is None,
            r.error is None,
    {
        Response { ok: true, data: None, error: None }
    }

    /// Success with a payload.
    pub fn ok_data(data: Payload) -> (r: Response)
        ensures
            r.ok,
            r.data == Some(data),
            r.error is None,
    {
        Response { ok: true, data: Some(data), error: None }
    }

    /// Failure with a message.
    pub fn err(message: String) -> (r: Response)
        ensures
            !r.ok,
            r.data is None,
            r.error == Some(message),
    {
        Response { ok: false, data: None, error: Some(message) }
    }

    /// Whether this is success without a payload.
    pub open spec fn is_plain_ok(self) -> bool {
        self.ok && self.data is None && self.error is None
    }

    /// Whether this is failure with the given message.
    pub open spec fn is_error(self, message: Seq<char>) -> bool {
        !self.ok && self.data is None && self.error is Some && self.error->0@ == message
    }
}

/// What a request amounts to.
#[derive(Debug)]
pub struct Outcome {
    pub response: Response,
    /// The configuration has to be loaded again.
    pub reload: bool,
    /// The compositor has to end.
    pub quit: bool,
    /// Steps for the compositor.
    pub actions: Vec<Action>,
}

/// Message for a layout mode that is not known.
pub open spec fn unknown_mode_message(mode: Seq<char>) -> Seq<char> {
    "unknown layout mode '"@ + mode + "' (expected tile, floating, fibonacci, or monocle)"@
}

/// Whether an entry describes the workspace at `i`.
pub open spec fn describes(entry: WorkspaceEntry, set: WorkspaceSet, i: int) -> bool {
    let ws = set.workspaces@[i];
    &&& entry.index == i + 1
    &&& entry.name@ == ws.name@
    &&& entry.active == (i == set.active)
    &&& entry.layout == ws.tiling.params.mode
    &&& entry.windows == ws.tiling.order@.len()
}

/// Lists the workspaces, in order.
pub fn list_workspaces(set: &WorkspaceSet) -> (entries: Vec<WorkspaceEntry>)
    ensures
        entries@.len() == set.workspaces@.len(),
        forall|i: int| 0 <= i < entries@.len() ==> describes(#[trigger] entries@[i], *set, i),
{
    let mut entries: Vec<WorkspaceEntry> = Vec::new();
    let n: usize = set.len();
    let mut i: usize = 0;
    while i < n
        invariant
            i <= n,
            n == set.workspaces@.len(),
            entries@.len() == i,
            forall|k: int| 0 <= k < i ==> describes(#[trigger] entries@[k], *set, k),
        decreases n - i,
    {
        let chars: Vec<char> = text::chars_of(set.workspaces[i].name.as_str());
        entries.push(
            WorkspaceEntry {
                index: i + 1,
                name: text::string_of(chars.as_slice()),
                active: i == set.active,
                layout: set.workspaces[i].tiling.params.mode,
                windows: set.workspaces[i].tiling.order.len(),
            },
        );
        i = i + 1;
    }
    entries
}

/// Carries out a request. `windows` and `outputs` are what the compositor has
/// on the screen, `now` and `slide` are for switching workspaces.
pub fn handle_request(
    desktop: &mut Desktop,
    request: Request,
    windows: Vec<WindowEntry>,
    outputs: Vec<OutputEntry>,
    now: u64,
    slide: Option<u64>,
) -> (outcome: Outcome)
    requires
        old(desktop).wf(),
        request is FocusWorkspace ==> old(desktop).workspaces.can_grow(request->index as int),
    ensures
        final(desktop).wf(),
        old(desktop).same_but_workspaces(*final(desktop)),
        outcome.reload == (request is ReloadConfig),
        outcome.quit == (request is Quit),
        match request {
            Request::ReloadConfig | Request::Quit => {
                &&& outcome.response.is_plain_ok()
                &&& outcome.actions@.len() == 0
                &&& *final(desktop) == *old(desktop)
            },
            Request::SetLayout { mode } => match command::mode_named(mode@) {
                Some(mode) => {
                    &&& outcome.response.is_plain_ok()
                    &&& outcome.actions@ == seq![Action::Arrange]
                    &&& only_active_mode_changed(*old(desktop), *final(desktop))
                    &&& final(desktop).active().tiling.params.mode == mode
                },
                None => {
                    &&& outcome.response.is_error(unknown_mode_message(mode@))
                    &&& outcome.actions@.len() == 0
                    &&& *final(desktop) == *old(desktop)
                },
            },
            Request::FocusWorkspace { index } => if index == 0 {
                &&& outcome.response.is_error("workspace index is 1-based, 0 is not valid"@)
                &&& outcome.actions@.len() == 0
                &&& *final(desktop) == *old(desktop)
            } else {
                &&& outcome.response.is_plain_ok()
                &&& old(desktop).workspaces.grown(final(desktop).workspaces, index as int)
                &&& final(desktop).workspaces.active == index - 1
                &&& old(desktop).workspaces.active == index - 1 ==> outcome.actions@.len() == 0
                    && final(desktop).slide == old(desktop).slide
                &&& old(desktop).workspaces.active != index - 1 ==> {
                    let after = final(desktop).workspaces.workspaces@;
                    let leaving = match slide {
                        None => desktop::windows_but(after, index - 1, after.len() as int),
                        Some(_) => desktop::outgoing(after, old(desktop).slide),
                    };
                    &&& outcome.actions@ == crate::action::unmap_all(leaving) + seq![
                        Action::Arrange,
                        Action::SyncWorkspaces,
                    ]
                    &&& final(desktop).slide == (match slide {
                        None => None,
                        Some(duration) => Some(
                            WorkspaceSlide {
                                from_idx: old(desktop).workspaces.active,
                                to_idx: (index - 1) as usize,
                                start: now,
                                duration,
                            },
                        ),
                    })
                }
            },
            Request::ListWorkspaces => {
                &&& outcome.response.ok
                &&& outcome.response.error is None
                &&& outcome.response.data matches Some(Payload::Workspaces(entries)) && {
                    &&& entries@.len() == old(desktop).workspaces.workspaces@.len()
                    &&& forall|i: int|
                        0 <= i < entries@.len() ==> describes(
                            #[trigger] entries@[i],
                            old(desktop).workspaces,
                            i,
                        )
                }
                &&& outcome.actions@.len() == 0
                &&& *final(desktop) == *old(desktop)
            },
            Request::ListWindows => {
                &&& outcome.response.ok
                &&& outcome.response.error is None
                &&& outcome.response.data == Some(Payload::Windows(windows))
                &&& outcome.actions@.len() == 0
                &&& *final(desktop) == *old(desktop)
            },
            Request::ListOutputs => {
                &&& outcome.response.ok
                &&& outcome.response.error is None
                &&& outcome.response.data == Some(Payload::Outputs(outputs))
                &&& outcome.actions@.len() == 0
                &&& *final(desktop) == *old(desktop)
            },
        },
{
    let mut actions: Vec<Action> = Vec::new();
    match request {
        Request::ReloadConfig => Outcome {
            response: Response::ok(),
            reload: true,
            quit: false,
            actions,
        },
        Request::Quit => Outcome { response: Response::ok(), reload: false, quit: true, actions },
        Request::SetLayout { mode } => match command::parse_layout_mode(mode.as_str()) {
            Some(mode) => {
                let at: usize = desktop.workspaces.active_index();
                let ghost before = *desktop;
                desktop.workspaces.workspaces[at].tiling.params.set_mode(mode);
                proof {
                    desktop::lemma_one_changed(before.workspaces, desktop.workspaces, at as int);
                }
                actions.push(Action::Arrange);
                assert(actions@ =~= seq![Action::Arrange]);
                Outcome { response: Response::ok(), reload: false, quit: false, actions }
            },
            None => {
                let mut message: String = String::new();
                text::append(&mut message, "unknown layout mode '");
                text::append(&mut message, mode.as_str());
                text::append(&mut message, "' (expected tile, floating, fibonacci, or monocle)");
                assert(message@ =~= unknown_mode_message(mode@));
                Outcome { response: Response::err(message), reload: false, quit: false, actions }
            },
        },
        Request::FocusWorkspace { index } => {
            if index == 0 {
                let mut message: String = String::new();
                text::append(&mut message, "workspace index is 1-based, 0 is not valid");
                assert(message@ =~= "workspace index is 1-based, 0 is not valid"@);
                return Outcome {
                    response: Response::err(message),
                    reload: false,
                    quit: false,
                    actions,
                };
            }
            let actions: Vec<Action> = desktop.switch_workspace(index - 1, now, slide);
            Outcome { response: Response::ok(), reload: false, quit: false, actions }
        },
        Request::ListWorkspaces => {
            let entries: Vec<WorkspaceEntry> = list_workspaces(&desktop.workspaces);
            Outcome {
                response: Response::ok_data(Payload::Workspaces(entries)),
                reload: false,
                quit: false,
                actions,
            }
        },
        Request::ListWindows => Outcome {
            response: Response::ok_data(Payload::Windows(windows)),
            reload: false,
            quit: false,
            actions,
        },
        Request::ListOutputs => Outcome {
            response: Response::ok_data(Payload::Outputs(outputs)),
            reload: false,
            quit: false,
            actions,
        },
    }
}

/// Whether the two states agree on everything but the layout mode of the
/// active workspace.
pub open spec fn only_active_mode_changed(before: Desktop, after: Desktop) -> bool {
    let was = before.workspaces.workspaces@;
    let now = after.workspaces.workspaces@;
    let at = before.workspaces.active as int;
    &&& after.workspaces.active == at
    &&& after.workspaces.next_id == before.workspaces.next_id
    &&& after.workspaces.gaps == before.workspaces.gaps
    &&& after.slide == before.slide
    &&& now.len() == was.len()
    &&& now[at].id == was[at].id
    &&& now[at].name == was[at].name
    &&& now[at].tiling.order == was[at].tiling.order
    &&& now[at].tiling.params == (crate::params::LayoutParams {
        mode: now[at].tiling.params.mode,
        ..was[at].tiling.params
    })
    &&& forall|i: int| 0 <= i < was.len() && i != at ==> #[trigger] now[i] == was[i]
}

/// A message as it goes over the socket: one line.
pub open spec fn framed(message: Seq<char>) -> Seq<char> {
    message.push('\n')
}

/// A message as it goes over the socket.
pub fn frame(message: &str) -> (line: String)
    ensures
        line@ == framed(message@),
{
    let chars: Vec<char> = text::chars_of(message);
    let mut line: String = text::string_of(chars.as_slice());
    line.push('\n');
    line
}

/// The message in a line that was read; none when the other side closed the
/// connection without sending anything.
pub open spec fn unframed(line: Seq<char>) -> Option<Seq<char>> {
    if line.len() == 0 {
        None
    } else {
        Some(text::trim_end(line))
    }
}

/// The message in a line that was read.
pub fn unframe(line: &str) -> (message: Option<String>)
    ensures
        message is Some <==> unframed(line@) is Some,
        message is Some ==> message->0@ == unframed(line@)->0,
{
    let chars: Vec<char> = text::chars_of(line);
    if chars.len() == 0 {
        return None;
    }
    let mut to: usize = chars.len();
    assert(chars@.take(to as int) =~= chars@);
    while to > 0 && text::is_white(chars[to - 1])
        invariant
            to <= chars@.len(),
            text::trim_end(chars@) == text::trim_end(chars@.take(to as int)),
        decreases to,
    {
        assert(chars@.take(to as int).last() == chars@[to - 1]);
        assert(chars@.take(to as int).drop_last() =~= chars@.take(to - 1));
        to = to - 1;
    }
    let ghost kept = chars@.take(to as int);
    assert(kept.len() > 0 ==> kept.last() == chars@[to - 1]);
    let body: Vec<char> = crate::sysinfo::copy_range(chars.as_slice(), 0, to);
    assert(body@ =~= kept);
    Some(text::string_of(body.as_slice()))
}

/// A message that does not end in white space comes out of its frame as it
/// went in, and the frame is a single line when the message is.
pub proof fn framing_round_trips(message: Seq<char>)
    requires
        message.len() > 0 ==> !text::white(message.last()),
    ensures
        unframed(framed(message)) == Some(message),
        !message.contains('\n') ==> forall|i: int|
            0 <= i < framed(message).len() - 1 ==> framed(message)[i] != '\n',
        framed(message).last() == '\n',
{
    let line = framed(message);
    assert(text::white(line.last()));
    assert(line.drop_last() =~= message);
    assert(text::trim_end(message) == message);
    if !message.contains('\n') {
        assert forall|i: int| 0 <= i < line.len() - 1 implies line[i] != '\n' by {
            assert(line[i] == message[i]);
        }
    }
}

/// Whether the first line of a stream ends before position `n`.
pub open spec fn first_line_ends(stream: Seq<char>, n: int) -> bool {
    &&& 0 < n <= stream.len()
    &&& stream[n - 1] == '\n'
    &&& forall|i: int| 0 <= i < n - 1 ==> stream[i] != '\n'
}

/// Messages that are written one after the other are read back one after the
/// other: the first line of the stream is the first message's frame, and what
/// follows it is what was written after it.
pub proof fn messages_are_read_back_in_order(message: Seq<char>, rest: Seq<char>)
    requires
        !message.contains('\n'),
        message.len() > 0 ==> !text::white(message.last()),
    ensures
        ({
            let stream = framed(message) + rest;
            let n = framed(message).len() as int;
            &&& first_line_ends(stream, n)
            &&& unframed(stream.take(n)) == Some(message)
            &&& stream.skip(n) == rest
        }),
{
    framing_round_trips(message);
    let stream = framed(message) + rest;
    let n = framed(message).len() as int;
    assert forall|i: int| 0 <= i < n - 1 implies stream[i] != '\n' by {
        assert(stream[i] == framed(message)[i]);
    }
    assert(stream.take(n) =~= framed(message));
    assert(stream.skip(n) =~= rest);
}

/// Path of the control socket: `spitfire.sock` in the runtime directory. When
/// there is none it is `/tmp/spitfire-<user>.sock`, and a user without a name
/// is called `unknown`.
pub fn default_socket_path(runtime_dir: Option<&str>, user: Option<&str>) -> (path: String)
    ensures
        path@ == (if runtime_dir is Some && runtime_dir->0@.len() > 0 {
            config::joined(runtime_dir->0@, "spitfire.sock"@)
        } else {
            config::joined(
                "/tmp"@,
                "spitfire-"@ + (match user {
                    Some(name) => name@,
                    None => "unknown"@,
                }) + ".sock"@,
            )
        }),
{
    if let Some(dir) = runtime_dir {
        let chars: Vec<char> = text::chars_of(dir);
        if chars.len() > 0 {
            return config::join_path(dir, "spitfire.sock");
        }
    }
    let mut name: String = String::new();
    text::append(&mut name, "spitfire-");
    match user {
        Some(user) => text::append(&mut name, user),
        None => text::append(&mut name, "unknown"),
    }
    text::append(&mut name, ".sock");
    assert(name@ =~= "spitfire-"@ + (match user {
        Some(name) => name@,
        None => "unknown"@,
    }) + ".sock"@);
    config::join_path("/tmp", name.as_str())
}

/// Why a command line of the control program is not a request.
#[derive(Debug, Clone, Copy, PartialEq, Eq, Structural)]
pub enum UsageError {
    NoCommand,
    MissingMode,
    BadWorkspace,
    BadWorkspaceCommand,
    UnknownCommand,
}

/// Whether a word of the command line is the given one.
pub open spec fn arg_is(args: Seq<String>, i: int, word: Seq<char>) -> bool {
    i < args.len() && args[i]@ == word
}

/// What a command line asks for.
pub ghost enum Asked {
    Plain(Request),
    Layout(Seq<char>),
    Focus(nat),
    Wrong(UsageError),
}

/// What a command line, without the program's name, asks for.
pub open spec fn asked(args: Seq<String>) -> Asked {
    if args.len() == 0 {
        Asked::Wrong(UsageError::NoCommand)
    } else if arg_is(args, 0, "reload"@) {
        Asked::Plain(Request::ReloadConfig)
    } else if arg_is(args, 0, "quit"@) {
        Asked::Plain(Request::Quit)
    } else if arg_is(args, 0, "layout"@) {
        if args.len() < 2 {
            Asked::Wrong(UsageError::MissingMode)
        } else {
            Asked::Layout(args[1]@)
        }
    } else if arg_is(args, 0, "workspace"@) {
        if !arg_is(args, 1, "focus"@) {
            Asked::Wrong(UsageError::BadWorkspaceCommand)
        } else if args.len() < 3 {
            Asked::Wrong(UsageError::BadWorkspace)
        } else {
            match text::parsed_number(args[2]@, 10, usize::MAX as nat) {
                Some(n) => Asked::Focus(n),
                None => Asked::Wrong(UsageError::BadWorkspace),
            }
        }
    } else if arg_is(args, 0, "list-windows"@) {
        Asked::Plain(Request::ListWindows)
    } else if arg_is(args, 0, "list-outputs"@) {
        Asked::Plain(Request::ListOutputs)
    } else if arg_is(args, 0, "list-workspaces"@) {
        Asked::Plain(Request::ListWorkspaces)
    } else {
        Asked::Wrong(UsageError::UnknownCommand)
    }
}

/// Whether a result is what was asked for.
pub open spec fn answers(r: Result<Request, UsageError>, wanted: Asked) -> bool {
    match wanted {
        Asked::Plain(request) => r == Ok::<Request, UsageError>(request),
        Asked::Layout(mode) => r matches Ok(Request::SetLayout { mode: m }) && m@ == mode,
        Asked::Focus(n) => r matches Ok(Request::FocusWorkspace { index }) && index == n,
        Asked::Wrong(e) => r == Err::<Request, UsageError>(e),
    }
}

/// Reads the command line of the control program.
pub fn parse_args(args: &[String]) -> (r: Result<Request, UsageError>)
    ensures
        answers(r, asked(args@)),
{
    if args.len() == 0 {
        return Err(UsageError::NoCommand);
    }
    let first: Vec<char> = text::chars_of(args[0].as_str());
    let word: &[char] = first.as_slice();
    if text::same_text(word, "reload") {
        Ok(Request::ReloadConfig)
    } else if text::same_text(word, "quit") {
        Ok(Request::Quit)
    } else if text::same_text(word, "layout") {
        if args.len() < 2 {
            return Err(UsageError::MissingMode);
        }
        let mode: Vec<char> = text::chars_of(args[1].as_str());
        Ok(Request::SetLayout { mode: text::string_of(mode.as_slice()) })
    } else if text::same_text(word, "workspace") {
        if args.len() < 2 || !text::same_str(args[1].as_str(), "focus") {
            return Err(UsageError::BadWorkspaceCommand);
        }
        if args.len() < 3 {
            return Err(UsageError::BadWorkspace);
        }
        let number: Vec<char> = text::chars_of(args[2].as_str());
        match text::parse_number(number.as_slice(), 10, usize::MAX as u64) {
            Some(n) => Ok(Request::FocusWorkspace { index: n as usize }),
            None => Err(UsageError::BadWorkspace),
        }
    } else if text::same_text(word, "list-windows") {
        Ok(Request::ListWindows)
    } else if text::same_text(word, "list-outputs") {
        Ok(Request::ListOutputs)
    } else if text::same_text(word, "list-workspaces") {
        Ok(Request::ListWorkspaces)
    } else {
        Err(UsageError::UnknownCommand)
    }
}

/// The commands of the control program ask for the requests that they are named
/// after, whatever follows them.
pub proof fn commands_ask_for_their_requests(args: Seq<String>)
    requires
        args.len() > 0,
    ensures
        args[0]@ == "reload"@ ==> asked(args) == Asked::Plain(Request::ReloadConfig),
        args[0]@ == "quit"@ ==> asked(args) == Asked::Plain(Request::Quit),
        args[0]@ == "list-windows"@ ==> asked(args) == Asked::Plain(Request::ListWindows),
        args[0]@ == "list-outputs"@ ==> asked(args) == Asked::Plain(Request::ListOutputs),
        args[0]@ == "list-workspaces"@ ==> asked(args) == Asked::Plain(Request::ListWorkspaces),
        args[0]@ == "layout"@ && args.len() == 1 ==> asked(args) == Asked::Wrong(
            UsageError::MissingMode,
        ),
        args[0]@ == "layout"@ && args.len() > 1 ==> asked(args) == Asked::Layout(args[1]@),
        args[0]@ == "workspace"@ && (args.len() == 1 || args[1]@ != "focus"@) ==> asked(args)
            == Asked::Wrong(UsageError::BadWorkspaceCommand),
        asked(args) == Asked::Wrong(UsageError::UnknownCommand) <==> args[0]@ != "reload"@
            && args[0]@ != "quit"@ && args[0]@ != "layout"@ && args[0]@ != "workspace"@
            && args[0]@ != "list-windows"@ && args[0]@ != "list-outputs"@ && args[0]@
            != "list-workspaces"@,
        asked(Seq::empty()) == Asked::Wrong(UsageError::NoCommand),
{
    lemma_commands_differ();
}

/// Asking for a workspace gives the number back that was written down, and
/// nothing that is no number is taken for one.
pub proof fn workspaces_are_asked_for_by_number(args: Seq<String>, n: nat)
    requires
        args.len() >= 3,
        args[0]@ == "workspace"@,
        args[1]@ == "focus"@,
    ensures
        n <= usize::MAX && args[2]@ == text::decimal(n) ==> asked(args) == Asked::Focus(n),
        args[2]@.len() == 0 ==> asked(args) == Asked::Wrong(UsageError::BadWorkspace),
        asked(args) matches Asked::Focus(m) ==> m <= usize::MAX,
        asked(args) is Focus || asked(args) == Asked::Wrong(UsageError::BadWorkspace),
{
    lemma_commands_differ();
    if n <= usize::MAX && args[2]@ == text::decimal(n) {
        text::decimal_parses_back(n, usize::MAX as nat);
    }
}

proof fn lemma_commands_differ()
    ensures
        "reload"@.len() == 6 && "reload"@[0] == 'r',
        "quit"@.len() == 4,
        "layout"@.len() == 6 && "layout"@[0] == 'l',
        "workspace"@.len() == 9,
        "list-windows"@.len() == 12 && "list-windows"@[5] == 'w',
        "list-outputs"@.len() == 12 && "list-outputs"@[5] == 'o',
        "list-workspaces"@.len() == 15,
{
    reveal_strlit("reload");
    reveal_strlit("quit");
    reveal_strlit("layout");
    reveal_strlit("workspace");
    reveal_strlit("list-windows");
    reveal_strlit("list-outputs");
    reveal_strlit("list-workspaces");
}

/// A listed workspace is counted from one, says how many windows it has, and is
/// marked if and only if it is the active one.
pub proof fn listed_workspaces_are_counted_from_one(
    entry: WorkspaceEntry,
    other: WorkspaceEntry,
    set: WorkspaceSet,
    i: int,
    j: int,
)
    requires
        set.wf(),
        0 <= i < set.workspaces@.len(),
        0 <= j < set.workspaces@.len(),
        describes(entry, set, i),
        describes(other, set, j),
    ensures
        1 <= entry.index <= set.workspaces@.len(),
        entry.index - other.index == i - j,
        entry.active <==> entry.index == set.active + 1,
        entry.active && other.active ==> i == j,
        entry.name@ == set.workspaces@[i].name@,
        entry.windows == set.workspaces@[i].tiling.order@.len(),
        entry.layout == set.workspaces@[i].tiling.params.mode,
{
}

/// A reply is plain success or an error, never both: success carries no message,
/// and an error carries its own.
pub proof fn replies_are_success_or_errors(r: Response, message: Seq<char>)
    ensures
        r.is_plain_ok() <==> r.ok && r.data is None && r.error is None,
        r.is_error(message) <==> !r.ok && r.data is None && r.error is Some && r.error->0@
            == message,
        !(r.is_error(message) && r.is_plain_ok()),
{
}

} // verus!
