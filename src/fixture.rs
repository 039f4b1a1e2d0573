use vstd::prelude::*;
use vstd::string::StringExecFns;
use crate::vocab::{Command, Direction, Event, EventType, InputMode, Key, Resize};
use crate::text::{debug_str, decimal, decimal_text, event_description, event_text, quoted};

verus! {

/// The layout that the `b` key asks the host to open tabs from.
pub const TWO_TAB_LAYOUT: &'static str = "layout {
                        tab {
                            pane
                            pane
                        }
                        tab split_direction=\"vertical\" {
                            pane
                            pane
                        }
                    }";

pub const DEMO_FILE: &'static str = "/path/to/my/file.rs";

pub const DEMO_PLUGIN_URL: &'static str = "file:/path/to/my/plugin.wasm";

pub const DEMO_TAB_NAME: &'static str = "my tab name";

/// The name of the worker that the reference extension talks to.
pub const WORKER_NAME: &'static str = "test";

pub const PING: &'static str = "ping";

pub const PONG: &'static str = "pong";

pub const PING_PAYLOAD: &'static str = "gimme_back_my_payload";

/// The event kinds the reference extension subscribes to when it loads.
pub open spec fn fixture_subscriptions() -> Seq<EventType> {
    seq![
        EventType::InputReceived,
        EventType::Key,
        EventType::SystemClipboardFailure,
        EventType::CustomMessage,
        EventType::FileSystemCreate,
        EventType::FileSystemUpdate,
        EventType::FileSystemDelete,
    ]
}

/// Whether a plain character key is bound to a command.
pub open spec fn char_is_bound(ch: char) -> bool {
    ('a' <= ch && ch <= 'z') || ('1' <= ch && ch <= '8')
}

/// Whether a control-modified key is bound to a command.
pub open spec fn ctrl_is_bound(ch: char) -> bool {
    'a' <= ch && ch <= 'p'
}

pub open spec fn key_is_bound(k: Key) -> bool {
    match k {
        Key::Char(ch) => char_is_bound(ch),
        Key::Ctrl(ch) => ctrl_is_bound(ch),
        _ => false,
    }
}

/// `c` is the command bound to the plain character key `ch`.
pub open spec fn char_command(ch: char, c: Command) -> bool {
    if ch == 'a' { c == Command::SwitchToMode(InputMode::Tab) }
    else if ch == 'b' { match c { Command::NewTabsWithLayout(l) => l@ == TWO_TAB_LAYOUT@, _ => false } }
    else if ch == 'c' { c == Command::NewTab }
    else if ch == 'd' { c == Command::GoToNextTab }
    else if ch == 'e' { c == Command::GoToPreviousTab }
    else if ch == 'f' { c == Command::ResizeFocusedPane(Resize::Increase) }
    else if ch == 'g' { c == Command::ResizeFocusedPaneWithDirection(Resize::Increase, Direction::Left) }
    else if ch == 'h' { c == Command::FocusNextPane }
    else if ch == 'i' { c == Command::FocusPreviousPane }
    else if ch == 'j' { c == Command::MoveFocus(Direction::Left) }
    else if ch == 'k' { c == Command::MoveFocusOrTab(Direction::Left) }
    else if ch == 'l' { c == Command::Detach }
    else if ch == 'm' { c == Command::EditScrollback }
    else if ch == 'n' { match c { Command::Write(b) => b@ == seq![102u8, 111u8, 111u8], _ => false } }
    else if ch == 'o' { match c { Command::WriteChars(s) => s@ == "foo"@, _ => false } }
    else if ch == 'p' { c == Command::ToggleTab }
    else if ch == 'q' { c == Command::MovePane }
    else if ch == 'r' { c == Command::MovePaneWithDirection(Direction::Left) }
    else if ch == 's' { c == Command::ClearScreen }
    else if ch == 't' { c == Command::ScrollUp }
    else if ch == 'u' { c == Command::ScrollDown }
    else if ch == 'v' { c == Command::ScrollToTop }
    else if ch == 'w' { c == Command::ScrollToBottom }
    else if ch == 'x' { c == Command::PageScrollUp }
    else if ch == 'y' { c == Command::PageScrollDown }
    else if ch == 'z' { c == Command::ToggleFocusFullscreen }
    else if ch == '1' { c == Command::TogglePaneFrames }
    else if ch == '2' { c == Command::TogglePaneEmbedOrEject }
    else if ch == '3' { c == Command::UndoRenamePane }
    else if ch == '4' { c == Command::CloseFocus }
    else if ch == '5' { c == Command::ToggleActiveTabSync }
    else if ch == '6' { c == Command::CloseFocusedTab }
    else if ch == '7' { c == Command::UndoRenameTab }
    else if ch == '8' { c == Command::QuitZellij }
    else { false }
}

/// `c` is the command bound to the control-modified key `ch`.
pub open spec fn ctrl_command(ch: char, c: Command) -> bool {
    if ch == 'a' { c == Command::PreviousSwapLayout }
    else if ch == 'b' { c == Command::NextSwapLayout }
    else if ch == 'c' { match c { Command::GoToTabName(n) => n@ == DEMO_TAB_NAME@, _ => false } }
    else if ch == 'd' { match c { Command::FocusOrCreateTab(n) => n@ == DEMO_TAB_NAME@, _ => false } }
    else if ch == 'e' { c == Command::GoToTab(2) }
    else if ch == 'f' { match c { Command::StartOrReloadPlugin(u) => u@ == DEMO_PLUGIN_URL@, _ => false } }
    else if ch == 'g' || ch == 'h' || ch == 'i' || ch == 'j' {
        match c {
            Command::OpenFile { path, line, floating } =>
                path@ == DEMO_FILE@
                && line == (if ch == 'i' || ch == 'j' { Some(42usize) } else { None })
                && floating == (ch == 'h' || ch == 'j'),
            _ => false,
        }
    }
    else if ch == 'k' || ch == 'l' {
        match c {
            Command::OpenTerminal { cwd, floating } => cwd@ == DEMO_FILE@ && floating == (ch == 'l'),
            _ => false,
        }
    }
    else if ch == 'm' || ch == 'n' {
        match c {
            Command::OpenCommandPane { command, args, floating } =>
                command@ == DEMO_FILE@
                && args@.len() == 2 && args@[0]@ == "arg1"@ && args@[1]@ == "arg2"@
                && floating == (ch == 'n'),
            _ => false,
        }
    }
    else if ch == 'o' { c == Command::SwitchTabTo(1) }
    else if ch == 'p' { c == Command::HideSelf }
    else { false }
}

pub open spec fn key_command(k: Key, c: Command) -> bool {
    match k {
        Key::Char(ch) => char_command(ch, c),
        Key::Ctrl(ch) => ctrl_command(ch, c),
        _ => false,
    }
}

/// `cmds` are the commands that the reference extension issues for event `e`.
pub open spec fn reaction(e: Event, cmds: Seq<Command>) -> bool {
    match e {
        Event::Key(k) => if key_is_bound(k) {
            cmds.len() == 1 && key_command(k, cmds[0])
        } else {
            cmds.len() == 0
        },
        Event::SystemClipboardFailure => cmds.len() == 1 && match cmds[0] {
            Command::PostMessageTo { worker, tag, payload } =>
                worker@ == WORKER_NAME@ && tag@ == PING@ && payload@ == PING_PAYLOAD@,
            _ => false,
        },
        _ => cmds.len() == 0,
    }
}

/// The reference extension: it records every event it receives, issues one
/// command per bound key, asks its worker for a round trip on a clipboard
/// failure, and keeps the last payload its worker sent back.
pub struct FixturePlugin {
    pub received_events: Vec<Event>,
    pub received_payload: Option<String>,
}

fn s(text: &str) -> (r: String)
    ensures
        r@ == text@,
{
    String::from_str(text)
}

fn char_key_command(ch: char) -> (r: Option<Command>)
    ensures
        match r {
            Some(c) => char_is_bound(ch) && char_command(ch, c),
            None => !char_is_bound(ch),
        },
{
    if ch == 'a' { Some(Command::SwitchToMode(InputMode::Tab)) }
    else if ch == 'b' { Some(Command::NewTabsWithLayout(s(TWO_TAB_LAYOUT))) }
    else if ch == 'c' { Some(Command::NewTab) }
    else if ch == 'd' { Some(Command::GoToNextTab) }
    else if ch == 'e' { Some(Command::GoToPreviousTab) }
    else if ch == 'f' { Some(Command::ResizeFocusedPane(Resize::Increase)) }
    else if ch == 'g' { Some(Command::ResizeFocusedPaneWithDirection(Resize::Increase, Direction::Left)) }
    else if ch == 'h' { Some(Command::FocusNextPane) }
    else if ch == 'i' { Some(Command::FocusPreviousPane) }
    else if ch == 'j' { Some(Command::MoveFocus(Direction::Left)) }
    else if ch == 'k' { Some(Command::MoveFocusOrTab(Direction::Left)) }
    else if ch == 'l' { Some(Command::Detach) }
    else if ch == 'm' { Some(Command::EditScrollback) }
    else if ch == 'n' {
        let bytes: Vec<u8> = vec![102, 111, 111];
        Some(Command::Write(bytes))
    }
    else if ch == 'o' { Some(Command::WriteChars(s("foo"))) }
    else if ch == 'p' { Some(Command::ToggleTab) }
    else if ch == 'q' { Some(Command::MovePane) }
    else if ch == 'r' { Some(Command::MovePaneWithDirection(Direction::Left)) }
    else if ch == 's' { Some(Command::ClearScreen) }
    else if ch == 't' { Some(Command::ScrollUp) }
    else if ch == 'u' { Some(Command::ScrollDown) }
    else if ch == 'v' { Some(Command::ScrollToTop) }
    else if ch == 'w' { Some(Command::ScrollToBottom) }
    else if ch == 'x' { Some(Command::PageScrollUp) }
    else if ch == 'y' { Some(Command::PageScrollDown) }
    else if ch == 'z' { Some(Command::ToggleFocusFullscreen) }
    else if ch == '1' { Some(Command::TogglePaneFrames) }
    else if ch == '2' { Some(Command::TogglePaneEmbedOrEject) }
    else if ch == '3' { Some(Command::UndoRenamePane) }
    else if ch == '4' { Some(Command::CloseFocus) }
    else if ch == '5' { Some(Command::ToggleActiveTabSync) }
    else if ch == '6' { Some(Command::CloseFocusedTab) }
    else if ch == '7' { Some(Command::UndoRenameTab) }
    else if ch == '8' { Some(Command::QuitZellij) }
    else { None }
}

fn ctrl_key_command(ch: char) -> (r: Option<Command>)
    ensures
        match r {
            Some(c) => ctrl_is_bound(ch) && ctrl_command(ch, c),
            None => !ctrl_is_bound(ch),
        },
{
    if ch == 'a' { Some(Command::PreviousSwapLayout) }
    else if ch == 'b' { Some(Command::NextSwapLayout) }
    else if ch == 'c' { Some(Command::GoToTabName(s(DEMO_TAB_NAME))) }
    else if ch == 'd' { Some(Command::FocusOrCreateTab(s(DEMO_TAB_NAME))) }
    else if ch == 'e' { Some(Command::GoToTab(2)) }
    else if ch == 'f' { Some(Command::StartOrReloadPlugin(s(DEMO_PLUGIN_URL))) }
    else if ch == 'g' { Some(Command::OpenFile { path: s(DEMO_FILE), line: None, floating: false }) }
    else if ch == 'h' { Some(Command::OpenFile { path: s(DEMO_FILE), line: None, floating: true }) }
    else if ch == 'i' { Some(Command::OpenFile { path: s(DEMO_FILE), line: Some(42), floating: false }) }
    else if ch == 'j' { Some(Command::OpenFile { path: s(DEMO_FILE), line: Some(42), floating: true }) }
    else if ch == 'k' { Some(Command::OpenTerminal { cwd: s(DEMO_FILE), floating: false }) }
    else if ch == 'l' { Some(Command::OpenTerminal { cwd: s(DEMO_FILE), floating: true }) }
    else if ch == 'm' || ch == 'n' {
        let mut args: Vec<String> = Vec::new();
        args.push(s("arg1"));
        args.push(s("arg2"));
        Some(Command::OpenCommandPane { command: s(DEMO_FILE), args, floating: ch == 'n' })
    }
    else if ch == 'o' { Some(Command::SwitchTabTo(1)) }
    else if ch == 'p' { Some(Command::HideSelf) }
    else { None }
}

impl FixturePlugin {
    pub fn new() -> (r: FixturePlugin)
        ensures
            r.received_events@.len() == 0,
            r.received_payload is None,
    {
        FixturePlugin { received_events: Vec::new(), received_payload: None }
    }

    /// The event kinds this extension subscribes to.
    pub fn load(&self) -> (r: Vec<EventType>)
        ensures
            r@ == fixture_subscriptions(),
    {
        let mut r: Vec<EventType> = Vec::new();
        r.push(EventType::InputReceived);
        r.push(EventType::Key);
        r.push(EventType::SystemClipboardFailure);
        r.push(EventType::CustomMessage);
        r.push(EventType::FileSystemCreate);
        r.push(EventType::FileSystemUpdate);
        r.push(EventType::FileSystemDelete);
        r
    }

    /// Handles one event: records it, keeps a worker's `pong` payload, and
    /// returns that a render is needed together with the commands it issues.
    pub fn update(&mut self, event: Event) -> (r: (bool, Vec<Command>))
        ensures
            r.0,
            reaction(event, r.1@),
            final(self).received_events@ == old(self).received_events@.push(event),
            final(self).received_payload == match event {
                Event::CustomMessage(tag, payload) => if tag@ == PONG@ {
                    Some(payload)
                } else {
                    old(self).received_payload
                },
                _ => old(self).received_payload,
            },
    {
        let mut cmds: Vec<Command> = Vec::new();
        match &event {
            Event::Key(Key::Char(ch)) => {
                if let Some(c) = char_key_command(*ch) {
                    cmds.push(c);
                }
            },
            Event::Key(Key::Ctrl(ch)) => {
                if let Some(c) = ctrl_key_command(*ch) {
                    cmds.push(c);
                }
            },
            Event::CustomMessage(tag, payload) => {
                if *tag == s(PONG) {
                    self.received_payload = Some(payload.clone());
                }
            },
            Event::SystemClipboardFailure => {
                cmds.push(Command::PostMessageTo {
                    worker: s(WORKER_NAME),
                    tag: s(PING),
                    payload: s(PING_PAYLOAD),
                });
            },
            _ => {},
        }
        self.received_events.push(event);
        (true, cmds)
    }
}

/// The texts `ts`, in order, separated by `", "`.
pub open spec fn joined(ts: Seq<Seq<char>>) -> Seq<char>
    decreases ts.len(),
{
    if ts.len() == 0 {
        Seq::empty()
    } else if ts.len() == 1 {
        ts[0]
    } else {
        joined(ts.drop_last()) + ", "@ + ts.last()
    }
}

/// The line drawn when no worker payload has arrived: the viewport size and
/// the texts of the received events.
pub open spec fn events_line(rows: nat, cols: nat, texts: Seq<Seq<char>>) -> Seq<char> {
    "Rows: "@ + decimal(rows) + ", Cols: "@ + decimal(cols) + ", Received events: ["@ + joined(texts) + "]\n"@
}

/// The line drawn for a worker payload whose debug text is `quoted`.
pub open spec fn payload_line(quoted: Seq<char>) -> Seq<char> {
    "Payload from worker: "@ + quoted + "\n"@
}

/// What the reference extension draws, as one line: the worker's last payload,
/// as debug text, when there is one; else the viewport size and the debug text
/// of every received event.
pub open spec fn render_text(payload: Option<String>, events: Seq<Event>, rows: nat, cols: nat) -> Seq<char> {
    match payload {
        Some(p) => payload_line(debug_str(p@)),
        None => events_line(rows, cols, events.map_values(|e: Event| event_text(e))),
    }
}

/// The line for a worker payload, given the payload's debug text.
pub fn format_payload_line(quoted: &str) -> (r: String)
    ensures
        r@ == payload_line(quoted@),
{
    let mut out = s("Payload from worker: ");
    out.append(quoted);
    out.append("\n");
    out
}

/// The line listing received events, given the viewport and each event's text.
pub fn format_events_line(rows: usize, cols: usize, texts: &Vec<String>) -> (r: String)
    ensures
        r@ == events_line(rows as nat, cols as nat, texts@.map_values(|t: String| t@)),
{
    let ghost ts = texts@.map_values(|t: String| t@);
    let mut out = s("Rows: ");
    let r = decimal_text(rows);
    out.append(r.as_str());
    out.append(", Cols: ");
    let c = decimal_text(cols);
    out.append(c.as_str());
    out.append(", Received events: [");
    let mut names = String::new();
    let mut i: usize = 0;
    while i < texts.len()
        invariant
            0 <= i <= texts@.len(),
            ts == texts@.map_values(|t: String| t@),
            names@ == joined(ts.subrange(0, i as int)),
        decreases texts@.len() - i,
    {
        assert(ts.subrange(0, i + 1).drop_last() =~= ts.subrange(0, i as int));
        assert(ts.subrange(0, i + 1).last() == texts@[i as int]@);
        if i > 0 {
            names.append(", ");
        }
        names.append(texts[i].as_str());
        i = i + 1;
    }
    assert(ts.subrange(0, ts.len() as int) =~= ts);
    out.append(names.as_str());
    out.append("]\n");
    out
}

impl FixturePlugin {
    /// Draws the extension for a viewport of `rows` by `cols`.
    pub fn render(&self, rows: usize, cols: usize) -> (r: String)
        ensures
            r@ == render_text(self.received_payload, self.received_events@, rows as nat, cols as nat),
    {
        match &self.received_payload {
            Some(p) => format_payload_line(quoted(p.as_str()).as_str()),
            None => {
                let ghost es = self.received_events@;
                let mut texts: Vec<String> = Vec::new();
                let mut i: usize = 0;
                while i < self.received_events.len()
                    invariant
                        0 <= i <= es.len(),
                        es == self.received_events@,
                        texts@.len() == i,
                        forall|j: int| 0 <= j < i ==> (#[trigger] texts@[j])@ == event_text(es[j]),
                    decreases es.len() - i,
                {
                    let t = event_description(&self.received_events[i]);
                    texts.push(t);
                    i = i + 1;
                }
                assert(texts@.map_values(|t: String| t@) =~= es.map_values(|e: Event| event_text(e)));
                format_events_line(rows, cols, &texts)
            },
        }
    }
}

/// The payload a worker sends back for its `n`-th `ping` carrying `payload`.
pub open spec fn reply_payload(payload: Seq<char>, n: nat) -> Seq<char> {
    payload + ", received "@ + decimal(n) + " messages"@
}

/// The worker's message count after it has handled `msg`.
pub open spec fn worker_step(n: nat, msg: Seq<char>) -> nat {
    if msg == PING@ { n + 1 } else { n }
}

/// The worker's message count after it has handled `msgs` in order, from `n`.
pub open spec fn worker_run(n: nat, msgs: Seq<Seq<char>>) -> nat
    decreases msgs.len(),
{
    if msgs.len() == 0 { n } else { worker_step(worker_run(n, msgs.drop_last()), msgs.last()) }
}

/// How many of `msgs` are `ping`.
pub open spec fn ping_count(msgs: Seq<Seq<char>>) -> nat
    decreases msgs.len(),
{
    if msgs.len() == 0 {
        0
    } else {
        ping_count(msgs.drop_last()) + if msgs.last() == PING@ { 1nat } else { 0nat }
    }
}

/// A worker's state lives as long as its instance: from any count `n`, after
/// any sequence of messages its count is `n` plus the number of `ping`s among
/// them; it never goes down, so the reply to the k-th of those `ping`s reports
/// `n + k` messages.
pub proof fn lemma_worker_state_persists(n: nat, msgs: Seq<Seq<char>>)
    ensures
        worker_run(n, msgs) == n + ping_count(msgs),
        forall|i: int| 0 <= i <= msgs.len() ==> worker_run(n, #[trigger] msgs.subrange(0, i)) <= worker_run(n, msgs),
    decreases msgs.len(),
{
    if msgs.len() > 0 {
        lemma_worker_state_persists(n, msgs.drop_last());
        assert forall|i: int| 0 <= i <= msgs.len() implies worker_run(n, #[trigger] msgs.subrange(0, i)) <= worker_run(n, msgs) by {
            if i == msgs.len() {
                assert(msgs.subrange(0, i) =~= msgs);
            } else {
                assert(msgs.subrange(0, i) =~= msgs.drop_last().subrange(0, i));
            }
        }
    } else {
        assert forall|i: int| 0 <= i <= msgs.len() implies worker_run(n, #[trigger] msgs.subrange(0, i)) <= worker_run(n, msgs) by {
            assert(msgs.subrange(0, i) =~= msgs);
        }
    }
}

/// The reference extension's background worker: it counts the `ping`s it has
/// received and answers each with a `pong` that echoes the payload and the count.
pub struct TestWorker {
    pub number_of_messages_received: usize,
}

impl TestWorker {
    pub fn new() -> (r: TestWorker)
        ensures
            r.number_of_messages_received == 0,
    {
        TestWorker { number_of_messages_received: 0 }
    }

    /// Handles one message; returns the reply for the owning instance, as tag
    /// and payload, if there is one.
    pub fn on_message(&mut self, message: String, payload: String) -> (r: Option<(String, String)>)
        requires
            message@ == PING@ ==> old(self).number_of_messages_received < usize::MAX,
        ensures
            final(self).number_of_messages_received as nat
                == worker_step(old(self).number_of_messages_received as nat, message@),
            message@ == PING@ ==> match r {
                Some((tag, body)) => tag@ == PONG@ && body@ == reply_payload(
                    payload@,
                    final(self).number_of_messages_received as nat,
                ),
                None => false,
            },
            message@ != PING@ ==> r is None,
    {
        if message == s(PING) {
            self.number_of_messages_received = self.number_of_messages_received + 1;
            let mut body = payload;
            body.append(", received ");
            let n = decimal_text(self.number_of_messages_received);
            body.append(n.as_str());
            body.append(" messages");
            Some((s(PONG), body))
        } else {
            None
        }
    }
}

} // verus!
