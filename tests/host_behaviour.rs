use plugin_host::bridge::{
    translate, translate_all, Outbound, PtyInstruction, ScreenInstruction, ServerInstruction, TerminalAction,
};
use plugin_host::fixture::{format_events_line, format_payload_line, FixturePlugin, TestWorker};
use plugin_host::host::{Action, Instruction, InstanceKey, Supervisor, UpdateEntry};
use plugin_host::runtime::Runtime;
use plugin_host::vocab::{is_subscribed, Command, Event, EventType, InputMode, Key};

fn key_of(client_id: u16) -> InstanceKey {
    InstanceKey { plugin_id: 0, tab_index: 1, client_id }
}

fn entry(client: Option<u16>, event: Event) -> UpdateEntry {
    UpdateEntry { plugin: None, client, event }
}

fn load(k: InstanceKey) -> Instruction {
    Instruction::Load(k, "file:fixture-plugin-for-tests.wasm".to_string(), 20, 121)
}

#[test]
fn load_new_plugin_from_hd() {
    let mut rt = Runtime::new();
    rt.send(Instruction::AddClient(1));
    rt.send(load(key_of(1)));
    rt.send(Instruction::Update(vec![entry(Some(1), Event::InputReceived)]));
    rt.run(100);
    let found = rt.renders.iter().find(|(_, text)| text.contains("InputReceived"));
    let (k, text) = found.expect("a render that shows the event");
    assert_eq!(k.plugin_id, 0);
    assert_eq!(k.client_id, 1);
    assert_eq!(text, "Rows: 20, Cols: 121, Received events: [InputReceived]\n");
}

#[test]
fn plugin_workers() {
    let mut rt = Runtime::new();
    rt.send(Instruction::AddClient(1));
    rt.send(load(key_of(1)));
    rt.send(Instruction::Update(vec![entry(Some(1), Event::SystemClipboardFailure)]));
    rt.run(100);
    let last = &rt.renders[rt.renders.len() - 1].1;
    assert!(last.contains("Payload from worker"));
    assert_eq!(last, "Payload from worker: \"gimme_back_my_payload, received 1 messages\"\n");
}

#[test]
fn plugin_workers_persist_state() {
    let mut rt = Runtime::new();
    rt.send(Instruction::AddClient(1));
    rt.send(load(key_of(1)));
    rt.send(Instruction::Update(vec![entry(Some(1), Event::SystemClipboardFailure)]));
    rt.send(Instruction::Update(vec![entry(Some(1), Event::SystemClipboardFailure)]));
    rt.run(100);
    let last = &rt.renders[rt.renders.len() - 1].1;
    assert!(last.contains("received 2 messages"));
}

#[test]
fn can_subscribe_to_hd_events() {
    let mut rt = Runtime::new();
    rt.send(Instruction::AddClient(1));
    rt.send(load(key_of(1)));
    rt.run(100);
    assert_eq!(rt.watches_armed, 1);
    rt.send(Instruction::Update(vec![entry(None, Event::FileSystemCreate("/tmp/test1".to_string()))]));
    rt.run(100);
    let last = &rt.renders[rt.renders.len() - 1].1;
    assert!(last.contains("FileSystemCreate"));
}

#[test]
fn events_before_load_are_replayed_in_order() {
    let mut s = Supervisor::new();
    let k = key_of(1);
    let acts = s.handle(load(k));
    assert_eq!(acts.len(), 3);
    assert!(matches!(acts[0], Action::Resolve(0, _)));
    assert!(matches!(acts[1], Action::Instantiate(_, 0, _, 20, 121)));
    assert!(matches!(acts[2], Action::ArmWatch));
    let acts = s.handle(Instruction::Update(vec![
        entry(Some(1), Event::InputReceived),
        entry(Some(2), Event::Key(Key::Char('x'))),
        entry(None, Event::Key(Key::Char('a'))),
        entry(Some(1), Event::ModeUpdate(InputMode::Normal)),
    ]));
    assert!(acts.is_empty());
    let subs = FixturePlugin::new().load();
    let acts = s.handle(Instruction::Loaded(k, 0, subs));
    assert_eq!(acts.len(), 2);
    assert!(matches!(acts[0], Action::Deliver(_, 0, Event::InputReceived)));
    assert!(matches!(acts[1], Action::Deliver(_, 0, Event::Key(Key::Char('a')))));
}

#[test]
fn reload_drops_stale_worker_messages() {
    let mut s = Supervisor::new();
    let k = key_of(1);
    s.handle(load(k));
    s.handle(Instruction::Loaded(k, 0, vec![EventType::CustomMessage]));
    let acts = s.handle(Instruction::Unload(key_of(1)));
    assert_eq!(acts.len(), 1);
    assert!(matches!(acts[0], Action::StopWorkers(_, 0)));
    let acts = s.handle(load(k));
    assert!(matches!(acts[0], Action::Instantiate(_, 1, _, _, _)));
    assert_eq!(acts.len(), 1);
    s.handle(Instruction::Loaded(k, 1, vec![EventType::CustomMessage]));
    let stale = s.handle(Instruction::FromWorker(k, 0, "pong".to_string(), "old".to_string()));
    assert!(stale.is_empty());
    let fresh = s.handle(Instruction::FromWorker(k, 1, "pong".to_string(), "new".to_string()));
    assert_eq!(fresh.len(), 1);
    match &fresh[0] {
        Action::Deliver(_, 1, Event::CustomMessage(tag, payload)) => {
            assert_eq!(tag, "pong");
            assert_eq!(payload, "new");
        },
        other => panic!("unexpected {:?}", other),
    }
}

#[test]
fn exit_drains_accepted_updates() {
    let mut s = Supervisor::new();
    let k = key_of(1);
    let q = vec![
        load(k),
        Instruction::Loaded(k, 0, vec![EventType::InputReceived]),
        Instruction::Update(vec![entry(None, Event::InputReceived)]),
        Instruction::Update(vec![entry(Some(1), Event::InputReceived)]),
        Instruction::Exit,
        Instruction::Update(vec![entry(None, Event::InputReceived)]),
    ];
    let acts = s.handle_all(q);
    assert_eq!(acts.len(), 7);
    assert!(matches!(acts[3], Action::Deliver(_, 0, Event::InputReceived)));
    assert!(matches!(acts[4], Action::Deliver(_, 0, Event::InputReceived)));
    assert!(matches!(acts[5], Action::StopWorkers(_, 0)));
    assert!(matches!(acts[6], Action::Shutdown));
    assert!(s.exited);
    assert!(s.instances.is_empty());
}

#[test]
fn runtime_stops_after_exit() {
    let mut rt = Runtime::new();
    rt.send(load(key_of(1)));
    rt.send(Instruction::Exit);
    rt.send(Instruction::Update(vec![entry(None, Event::InputReceived)]));
    // Load, Exit (waits for the load), the later Update (ignored), Loaded (then shutdown).
    assert_eq!(rt.run(100), 4);
    assert!(rt.shut_down);
    assert!(rt.queue.is_empty());
    assert!(rt.renders.is_empty());
    rt.send(Instruction::Update(vec![entry(None, Event::InputReceived)]));
    assert_eq!(rt.run(100), 0);
    assert_eq!(rt.queue.len(), 1);
}

#[test]
fn unsubscribed_events_are_skipped() {
    let mut s = Supervisor::new();
    let k = key_of(1);
    s.handle(load(k));
    s.handle(Instruction::Loaded(k, 0, vec![EventType::Key]));
    let acts = s.handle(Instruction::Update(vec![entry(None, Event::InputReceived), entry(None, Event::Visible(true))]));
    assert!(acts.is_empty());
}

#[test]
fn client_filter_selects_instances() {
    let mut s = Supervisor::new();
    s.handle(load(key_of(1)));
    s.handle(load(key_of(2)));
    s.handle(Instruction::Loaded(key_of(1), 0, vec![EventType::InputReceived]));
    s.handle(Instruction::Loaded(key_of(2), 1, vec![EventType::InputReceived]));
    let acts = s.handle(Instruction::Update(vec![entry(Some(2), Event::InputReceived)]));
    assert_eq!(acts.len(), 1);
    assert!(matches!(acts[0], Action::Deliver(InstanceKey { client_id: 2, .. }, 1, _)));
    let acts = s.handle(Instruction::Update(vec![entry(None, Event::InputReceived)]));
    assert_eq!(acts.len(), 2);
}

#[test]
fn load_failure_is_reported_once() {
    let mut s = Supervisor::new();
    let k = key_of(1);
    s.handle(load(k));
    let acts = s.handle(Instruction::LoadFailed(k, 0));
    assert_eq!(acts.len(), 1);
    assert!(matches!(acts[0], Action::ReportLoadFailure(_)));
    assert!(s.instances.is_empty());
    assert!(s.handle(Instruction::LoadFailed(k, 0)).is_empty());
}

#[test]
fn load_fails_when_generations_run_out() {
    let mut s = Supervisor::new();
    s.next_generation = u64::MAX;
    let acts = s.handle(load(key_of(1)));
    assert_eq!(acts.len(), 1);
    assert!(matches!(acts[0], Action::ReportLoadFailure(_)));
    assert!(s.instances.is_empty());
}

#[test]
fn reload_at_same_key_replaces_instance() {
    let mut s = Supervisor::new();
    let k = key_of(1);
    s.handle(load(k));
    let acts = s.handle(load(k));
    assert_eq!(acts.len(), 2);
    assert!(matches!(acts[0], Action::StopWorkers(_, 0)));
    assert!(matches!(acts[1], Action::Instantiate(_, 1, _, _, _)));
    assert_eq!(s.instances.len(), 1);
    assert_eq!(s.instances[0].generation, 1);
}

#[test]
fn resize_renders_loaded_instances() {
    let mut s = Supervisor::new();
    s.handle(load(key_of(1)));
    s.handle(load(key_of(2)));
    s.handle(Instruction::Loaded(key_of(1), 0, vec![]));
    let acts = s.handle(Instruction::Resize(0, 30, 80));
    assert_eq!(acts.len(), 2);
    assert!(matches!(acts[0], Action::Deliver(InstanceKey { client_id: 1, .. }, 0, Event::Resized(30, 80))));
    assert!(matches!(acts[1], Action::Render(InstanceKey { client_id: 1, .. }, 0, 30, 80)));
    assert_eq!(s.instances[1].rows, 30);
    assert_eq!(s.instances[1].cols, 80);
    assert_eq!(s.instances[1].pending.len(), 1);
    assert!(matches!(s.instances[1].pending[0], Event::Resized(30, 80)));
}

#[test]
fn after_update_sends_then_renders() {
    let mut s = Supervisor::new();
    let k = key_of(1);
    s.handle(load(k));
    s.handle(Instruction::Loaded(k, 0, vec![]));
    let acts = s.after_update(k, 0, true, vec![Command::NewTab, Command::QuitZellij]);
    assert_eq!(acts.len(), 3);
    assert!(matches!(acts[0], Action::Send(_, 0, Outbound::Screen(ScreenInstruction::NewTab(None, 1)))));
    assert!(matches!(acts[1], Action::Send(_, 0, Outbound::Server(ServerInstruction::ClientExit(1)))));
    assert!(matches!(acts[2], Action::Render(_, 0, 20, 121)));
    let quiet = s.after_update(k, 0, false, vec![]);
    assert!(quiet.is_empty());
}

#[test]
fn each_command_gives_one_instruction() {
    let out = translate_all(
        vec![Command::NewTab, Command::Detach, Command::WriteChars("héllo".to_string()), Command::HideSelf],
        7,
        3,
    );
    assert_eq!(out.len(), 4);
    assert!(matches!(out[0], Outbound::Screen(ScreenInstruction::NewTab(None, 3))));
    assert!(matches!(out[1], Outbound::Server(ServerInstruction::DetachSession(3))));
    match &out[2] {
        Outbound::Screen(ScreenInstruction::WriteCharacter(bytes, 3)) => assert_eq!(bytes, &"héllo".as_bytes().to_vec()),
        other => panic!("unexpected {:?}", other),
    }
    assert!(matches!(out[3], Outbound::Screen(ScreenInstruction::SuppressPane(7, 3))));
    let w = translate(
        Command::PostMessageTo { worker: "test".to_string(), tag: "ping".to_string(), payload: "p".to_string() },
        7,
        3,
    );
    assert!(matches!(w, Outbound::Worker(..)));
}

#[test]
fn worker_counts_pings_only() {
    let mut w = TestWorker::new();
    assert!(w.on_message("other".to_string(), "x".to_string()).is_none());
    let (tag, body) = w.on_message("ping".to_string(), "a".to_string()).unwrap();
    assert_eq!(tag, "pong");
    assert_eq!(body, "a, received 1 messages");
    assert!(w.on_message("pong".to_string(), "x".to_string()).is_none());
    let (_, body) = w.on_message("ping".to_string(), "b".to_string()).unwrap();
    assert_eq!(body, "b, received 2 messages");
    assert_eq!(w.number_of_messages_received, 2);
}

#[test]
fn worker_reports_large_counts_in_decimal() {
    let mut w = TestWorker::new();
    w.number_of_messages_received = 1234567;
    let (_, body) = w.on_message("ping".to_string(), "z".to_string()).unwrap();
    assert_eq!(body, "z, received 1234568 messages");
}

#[test]
fn render_lists_events_with_their_data() {
    let mut p = FixturePlugin::new();
    assert_eq!(p.render(0, 5), "Rows: 0, Cols: 5, Received events: []\n");
    p.update(Event::Key(Key::Char('?')));
    p.update(Event::FileSystemDelete("/a".to_string()));
    p.update(Event::CustomMessage("other".to_string(), "ignored".to_string()));
    p.update(Event::Key(Key::Ctrl('\'')));
    p.update(Event::Key(Key::F(12)));
    p.update(Event::ModeUpdate(InputMode::Tab));
    p.update(Event::Visible(false));
    assert_eq!(
        p.render(10, 200),
        "Rows: 10, Cols: 200, Received events: [Key(Char('?')), FileSystemDelete([\"/a\"]), \
         CustomMessage(\"other\", \"ignored\"), Key(Ctrl('\\'')), Key(F(12)), ModeUpdate(Tab), Visible(false)]\n"
    );
    assert!(p.received_payload.is_none());
    p.update(Event::CustomMessage("pong".to_string(), "kept".to_string()));
    assert_eq!(p.render(10, 200), "Payload from worker: \"kept\"\n");
}

#[test]
fn render_escapes_the_payload() {
    let mut p = FixturePlugin::new();
    p.update(Event::CustomMessage("pong".to_string(), "a\"b\\c\nd".to_string()));
    let out = p.render(1, 1);
    assert_eq!(out, format!("Payload from worker: {:?}\n", "a\"b\\c\nd"));
    assert_eq!(out, "Payload from worker: \"a\\\"b\\\\c\\nd\"\n");
}

#[test]
fn render_matches_debug_text_of_keys() {
    let mut p = FixturePlugin::new();
    p.update(Event::Key(Key::Char('a')));
    p.update(Event::Key(Key::Char('\n')));
    assert_eq!(p.render(20, 121), "Rows: 20, Cols: 121, Received events: [Key(Char('a')), Key(Char('\\n'))]\n");
}

#[test]
fn unbound_keys_issue_nothing() {
    let mut p = FixturePlugin::new();
    let (render, cmds) = p.update(Event::Key(Key::Char('9')));
    assert!(render);
    assert!(cmds.is_empty());
    let (_, cmds) = p.update(Event::Key(Key::Ctrl('q')));
    assert!(cmds.is_empty());
    let (_, cmds) = p.update(Event::Key(Key::Esc));
    assert!(cmds.is_empty());
    assert_eq!(p.received_events.len(), 3);
}

#[test]
fn subscription_lookup() {
    let subs = FixturePlugin::new().load();
    assert_eq!(subs.len(), 7);
    assert!(is_subscribed(&subs, EventType::FileSystemCreate));
    assert!(!is_subscribed(&subs, EventType::ModeUpdate));
    assert_eq!(Event::Visible(false).event_type(), EventType::Visible);
}

#[test]
fn clients_connect_once_and_leave() {
    let mut s = Supervisor::new();
    assert!(s.handle(Instruction::AddClient(1)).is_empty());
    s.handle(Instruction::AddClient(2));
    s.handle(Instruction::AddClient(1));
    assert_eq!(s.clients, vec![1, 2]);
    s.handle(load(key_of(1)));
    s.handle(load(key_of(2)));
    let acts = s.handle(Instruction::RemoveClient(1));
    assert!(acts.is_empty());
    assert_eq!(s.clients, vec![2]);
    assert_eq!(s.instances.len(), 2);
}

#[test]
fn unload_takes_only_its_key() {
    let mut s = Supervisor::new();
    s.handle(load(key_of(1)));
    s.handle(load(key_of(2)));
    let acts = s.handle(Instruction::Unload(key_of(2)));
    assert_eq!(acts.len(), 1);
    assert!(matches!(acts[0], Action::StopWorkers(InstanceKey { client_id: 2, .. }, 1)));
    assert_eq!(s.instances.len(), 1);
    assert_eq!(s.instances[0].key.client_id, 1);
}

#[test]
fn exit_waits_for_a_load_in_flight() {
    let mut s = Supervisor::new();
    let k = key_of(1);
    s.handle(Instruction::AddClient(1));
    s.handle(load(k));
    assert!(s.handle(Instruction::Update(vec![entry(Some(1), Event::Key(Key::Char('8')))])).is_empty());
    assert!(s.handle(Instruction::Exit).is_empty());
    assert!(s.exiting);
    assert!(s.handle(Instruction::Update(vec![entry(Some(1), Event::InputReceived)])).is_empty());
    let subs = FixturePlugin::new().load();
    let acts = s.handle(Instruction::Loaded(k, 0, subs));
    assert_eq!(acts.len(), 3);
    assert!(matches!(acts[0], Action::Deliver(_, 0, Event::Key(Key::Char('8')))));
    assert!(matches!(acts[1], Action::StopWorkers(_, 0)));
    assert!(matches!(acts[2], Action::Shutdown));
    assert!(s.exited);
}

#[test]
fn runtime_drains_update_queued_with_load_and_exit() {
    let mut rt = Runtime::new();
    rt.send(Instruction::AddClient(1));
    rt.send(load(key_of(1)));
    rt.send(Instruction::Update(vec![entry(Some(1), Event::Key(Key::Char('8')))]));
    rt.send(Instruction::Exit);
    rt.run(100);
    assert!(rt.shut_down);
    assert_eq!(rt.server.len(), 1);
    assert!(matches!(rt.server[0], ServerInstruction::ClientExit(1)));
}

#[test]
fn module_is_resolved_once_per_extension() {
    let mut s = Supervisor::new();
    let first = s.handle(load(key_of(1)));
    assert!(matches!(&first[0], Action::Resolve(0, loc) if loc == "file:fixture-plugin-for-tests.wasm"));
    let second = s.handle(load(key_of(2)));
    assert_eq!(second.len(), 1);
    assert!(matches!(second[0], Action::Instantiate(InstanceKey { client_id: 2, .. }, 1, _, _, _)));
    let other = s.handle(Instruction::Load(
        InstanceKey { plugin_id: 5, tab_index: 0, client_id: 1 },
        "file:other.wasm".to_string(),
        1,
        1,
    ));
    assert_eq!(other.len(), 2);
    assert!(matches!(other[0], Action::Resolve(5, _)));
    assert_eq!(s.resolved, vec![0, 5]);
}

#[test]
fn batch_keeps_order_per_instance() {
    let mut s = Supervisor::new();
    s.handle(load(key_of(1)));
    s.handle(load(key_of(2)));
    s.handle(Instruction::Loaded(key_of(1), 0, vec![EventType::Key, EventType::InputReceived]));
    s.handle(Instruction::Loaded(key_of(2), 1, vec![EventType::Key]));
    let acts = s.handle(Instruction::Update(vec![
        entry(None, Event::Key(Key::Char('1'))),
        entry(Some(1), Event::InputReceived),
        entry(Some(2), Event::Key(Key::Char('2'))),
        entry(None, Event::Key(Key::Char('3'))),
    ]));
    let for_client = |c: u16| -> Vec<String> {
        acts.iter()
            .filter_map(|a| match a {
                Action::Deliver(k, _, e) if k.client_id == c => Some(format!("{:?}", e)),
                _ => None,
            })
            .collect()
    };
    assert_eq!(for_client(1), vec!["Key(Char('1'))", "InputReceived", "Key(Char('3'))"]);
    assert_eq!(for_client(2), vec!["Key(Char('1'))", "Key(Char('2'))", "Key(Char('3'))"]);
    assert_eq!(acts.len(), 6);
}

#[test]
fn new_client_is_announced_to_every_instance() {
    let mut s = Supervisor::new();
    s.handle(load(key_of(1)));
    s.handle(Instruction::Loaded(key_of(1), 0, vec![EventType::Key]));
    let acts = s.handle(Instruction::AddClient(7));
    assert_eq!(acts.len(), 1);
    assert!(matches!(acts[0], Action::Deliver(_, 0, Event::ClientAdded(7))));
    assert!(s.handle(Instruction::AddClient(7)).is_empty());
}

#[test]
fn runtime_sends_commands_of_one_update_before_the_next() {
    let mut rt = Runtime::new();
    rt.send(Instruction::AddClient(1));
    rt.send(load(key_of(1)));
    rt.run(100);
    rt.send(Instruction::Update(vec![
        entry(Some(1), Event::Key(Key::Ctrl('g'))),
        entry(Some(1), Event::Key(Key::Ctrl('m'))),
    ]));
    rt.run(100);
    assert_eq!(rt.pty.len(), 2);
    assert!(matches!(&rt.pty[0], PtyInstruction::SpawnTerminal(TerminalAction::OpenFile(..), false, 1)));
    assert!(matches!(&rt.pty[1], PtyInstruction::SpawnTerminal(TerminalAction::RunCommand(..), false, 1)));
}

#[test]
fn runtime_drains_accepted_update_before_exit() {
    let mut rt = Runtime::new();
    rt.send(Instruction::AddClient(1));
    rt.send(load(key_of(1)));
    rt.run(100);
    rt.send(Instruction::Update(vec![entry(Some(1), Event::Key(Key::Char('8')))]));
    rt.send(Instruction::Exit);
    rt.run(100);
    assert!(rt.shut_down);
    assert_eq!(rt.server.len(), 1);
    assert!(matches!(rt.server[0], ServerInstruction::ClientExit(1)));
}

#[test]
fn reloaded_instance_starts_fresh() {
    let mut rt = Runtime::new();
    rt.send(load(key_of(1)));
    rt.run(100);
    rt.send(Instruction::Update(vec![entry(Some(1), Event::SystemClipboardFailure)]));
    rt.send(Instruction::Unload(key_of(1)));
    rt.send(load(key_of(1)));
    rt.run(100);
    rt.send(Instruction::Update(vec![entry(Some(1), Event::SystemClipboardFailure)]));
    rt.run(100);
    assert_eq!(rt.running.len(), 1);
    assert_eq!(rt.running[0].generation, 1);
    assert_eq!(rt.running[0].worker.number_of_messages_received, 1);
    let last = &rt.renders[rt.renders.len() - 1].1;
    assert_eq!(last, "Payload from worker: \"gimme_back_my_payload, received 1 messages\"\n");
}

#[test]
fn formats_render_lines_from_texts() {
    assert_eq!(format_payload_line("\"x\""), "Payload from worker: \"x\"\n");
    assert_eq!(format_events_line(3, 40, &vec![]), "Rows: 3, Cols: 40, Received events: []\n");
    assert_eq!(
        format_events_line(3, 40, &vec!["A".to_string(), "B(1)".to_string()]),
        "Rows: 3, Cols: 40, Received events: [A, B(1)]\n"
    );
}
