use plugin_host::bridge::{PtyInstruction, ScreenInstruction, ServerInstruction, TerminalAction};
use plugin_host::host::{Instruction, InstanceKey, UpdateEntry};
use plugin_host::runtime::Runtime;
use plugin_host::vocab::{Direction, Event, InputMode, Key, Resize};

fn fixture_key() -> InstanceKey {
    InstanceKey { plugin_id: 0, tab_index: 1, client_id: 1 }
}

fn loaded_with_event(event: Event) -> Runtime {
    let mut rt = Runtime::new();
    rt.send(Instruction::AddClient(1));
    rt.send(Instruction::Load(fixture_key(), "file:fixture-plugin-for-tests.wasm".to_string(), 20, 121));
    rt.send(Instruction::Update(vec![UpdateEntry { plugin: None, client: Some(1), event }]));
    rt.run(100);
    rt
}

#[test]
fn switch_to_mode_plugin_command() {
    let rt = loaded_with_event(Event::Key(Key::Char('a')));
    assert_eq!(rt.screen.len(), 1);
    assert!(matches!(rt.screen[0], ScreenInstruction::ChangeMode(InputMode::Tab, 1)));
    assert!(rt.pty.is_empty());
    assert!(rt.server.is_empty());
}

#[test]
fn new_tab_plugin_command() {
    let rt = loaded_with_event(Event::Key(Key::Char('c')));
    assert_eq!(rt.screen.len(), 1);
    assert!(matches!(rt.screen[0], ScreenInstruction::NewTab(None, 1)));
    assert!(rt.pty.is_empty());
    assert!(rt.server.is_empty());
}

#[test]
fn go_to_next_tab_plugin_command() {
    let rt = loaded_with_event(Event::Key(Key::Char('d')));
    assert_eq!(rt.screen.len(), 1);
    assert!(matches!(rt.screen[0], ScreenInstruction::SwitchTabNext(1)));
    assert!(rt.pty.is_empty());
    assert!(rt.server.is_empty());
}

#[test]
fn go_to_previous_tab_plugin_command() {
    let rt = loaded_with_event(Event::Key(Key::Char('e')));
    assert_eq!(rt.screen.len(), 1);
    assert!(matches!(rt.screen[0], ScreenInstruction::SwitchTabPrev(1)));
    assert!(rt.pty.is_empty());
    assert!(rt.server.is_empty());
}

#[test]
fn resize_focused_pane_plugin_command() {
    let rt = loaded_with_event(Event::Key(Key::Char('f')));
    assert_eq!(rt.screen.len(), 1);
    assert!(matches!(rt.screen[0], ScreenInstruction::Resize(Resize::Increase, None, 1)));
    assert!(rt.pty.is_empty());
    assert!(rt.server.is_empty());
}

#[test]
fn resize_focused_pane_with_direction_plugin_command() {
    let rt = loaded_with_event(Event::Key(Key::Char('g')));
    assert_eq!(rt.screen.len(), 1);
    assert!(matches!(rt.screen[0], ScreenInstruction::Resize(Resize::Increase, Some(Direction::Left), 1)));
    assert!(rt.pty.is_empty());
    assert!(rt.server.is_empty());
}

#[test]
fn focus_next_pane_plugin_command() {
    let rt = loaded_with_event(Event::Key(Key::Char('h')));
    assert_eq!(rt.screen.len(), 1);
    assert!(matches!(rt.screen[0], ScreenInstruction::FocusNextPane(1)));
    assert!(rt.pty.is_empty());
    assert!(rt.server.is_empty());
}

#[test]
fn focus_previous_pane_plugin_command() {
    let rt = loaded_with_event(Event::Key(Key::Char('i')));
    assert_eq!(rt.screen.len(), 1);
    assert!(matches!(rt.screen[0], ScreenInstruction::FocusPreviousPane(1)));
    assert!(rt.pty.is_empty());
    assert!(rt.server.is_empty());
}

#[test]
fn move_focus_plugin_command() {
    let rt = loaded_with_event(Event::Key(Key::Char('j')));
    assert_eq!(rt.screen.len(), 1);
    assert!(matches!(rt.screen[0], ScreenInstruction::MoveFocus(Direction::Left, 1)));
    assert!(rt.pty.is_empty());
    assert!(rt.server.is_empty());
}

#[test]
fn move_focus_or_tab_plugin_command() {
    let rt = loaded_with_event(Event::Key(Key::Char('k')));
    assert_eq!(rt.screen.len(), 1);
    assert!(matches!(rt.screen[0], ScreenInstruction::MoveFocusOrTab(Direction::Left, 1)));
    assert!(rt.pty.is_empty());
    assert!(rt.server.is_empty());
}

#[test]
fn detach_plugin_command() {
    let rt = loaded_with_event(Event::Key(Key::Char('l')));
    assert_eq!(rt.server.len(), 1);
    assert!(matches!(rt.server[0], ServerInstruction::DetachSession(1)));
    assert!(rt.screen.is_empty());
    assert!(rt.pty.is_empty());
}

#[test]
fn edit_scrollback_plugin_command() {
    let rt = loaded_with_event(Event::Key(Key::Char('m')));
    assert_eq!(rt.screen.len(), 1);
    assert!(matches!(rt.screen[0], ScreenInstruction::EditScrollback(1)));
    assert!(rt.pty.is_empty());
    assert!(rt.server.is_empty());
}

#[test]
fn toggle_tab_plugin_command() {
    let rt = loaded_with_event(Event::Key(Key::Char('p')));
    assert_eq!(rt.screen.len(), 1);
    assert!(matches!(rt.screen[0], ScreenInstruction::ToggleTab(1)));
    assert!(rt.pty.is_empty());
    assert!(rt.server.is_empty());
}

#[test]
fn move_pane_plugin_command() {
    let rt = loaded_with_event(Event::Key(Key::Char('q')));
    assert_eq!(rt.screen.len(), 1);
    assert!(matches!(rt.screen[0], ScreenInstruction::MovePane(1)));
    assert!(rt.pty.is_empty());
    assert!(rt.server.is_empty());
}

#[test]
fn move_pane_with_direction_plugin_command() {
    let rt = loaded_with_event(Event::Key(Key::Char('r')));
    assert_eq!(rt.screen.len(), 1);
    assert!(matches!(rt.screen[0], ScreenInstruction::MovePaneInDirection(Direction::Left, 1)));
    assert!(rt.pty.is_empty());
    assert!(rt.server.is_empty());
}

#[test]
fn clear_screen_plugin_command() {
    let rt = loaded_with_event(Event::Key(Key::Char('s')));
    assert_eq!(rt.screen.len(), 1);
    assert!(matches!(rt.screen[0], ScreenInstruction::ClearScreen(1)));
    assert!(rt.pty.is_empty());
    assert!(rt.server.is_empty());
}

#[test]
fn scroll_up_plugin_command() {
    let rt = loaded_with_event(Event::Key(Key::Char('t')));
    assert_eq!(rt.screen.len(), 1);
    assert!(matches!(rt.screen[0], ScreenInstruction::ScrollUp(1)));
    assert!(rt.pty.is_empty());
    assert!(rt.server.is_empty());
}

#[test]
fn scroll_down_plugin_command() {
    let rt = loaded_with_event(Event::Key(Key::Char('u')));
    assert_eq!(rt.screen.len(), 1);
    assert!(matches!(rt.screen[0], ScreenInstruction::ScrollDown(1)));
    assert!(rt.pty.is_empty());
    assert!(rt.server.is_empty());
}

#[test]
fn scroll_to_top_plugin_command() {
    let rt = loaded_with_event(Event::Key(Key::Char('v')));
    assert_eq!(rt.screen.len(), 1);
    assert!(matches!(rt.screen[0], ScreenInstruction::ScrollToTop(1)));
    assert!(rt.pty.is_empty());
    assert!(rt.server.is_empty());
}

#[test]
fn scroll_to_bottom_plugin_command() {
    let rt = loaded_with_event(Event::Key(Key::Char('w')));
    assert_eq!(rt.screen.len(), 1);
    assert!(matches!(rt.screen[0], ScreenInstruction::ScrollToBottom(1)));
    assert!(rt.pty.is_empty());
    assert!(rt.server.is_empty());
}

#[test]
fn page_scroll_up_plugin_command() {
    let rt = loaded_with_event(Event::Key(Key::Char('x')));
    assert_eq!(rt.screen.len(), 1);
    assert!(matches!(rt.screen[0], ScreenInstruction::PageScrollUp(1)));
    assert!(rt.pty.is_empty());
    assert!(rt.server.is_empty());
}

#[test]
fn page_scroll_down_plugin_command() {
    let rt = loaded_with_event(Event::Key(Key::Char('y')));
    assert_eq!(rt.screen.len(), 1);
    assert!(matches!(rt.screen[0], ScreenInstruction::PageScrollDown(1)));
    assert!(rt.pty.is_empty());
    assert!(rt.server.is_empty());
}

#[test]
fn toggle_focus_fullscreen_plugin_command() {
    let rt = loaded_with_event(Event::Key(Key::Char('z')));
    assert_eq!(rt.screen.len(), 1);
    assert!(matches!(rt.screen[0], ScreenInstruction::ToggleActiveTerminalFullscreen(1)));
    assert!(rt.pty.is_empty());
    assert!(rt.server.is_empty());
}

#[test]
fn toggle_pane_frames_plugin_command() {
    let rt = loaded_with_event(Event::Key(Key::Char('1')));
    assert_eq!(rt.screen.len(), 1);
    assert!(matches!(rt.screen[0], ScreenInstruction::TogglePaneFrames));
    assert!(rt.pty.is_empty());
    assert!(rt.server.is_empty());
}

#[test]
fn toggle_pane_embed_or_eject_plugin_command() {
    let rt = loaded_with_event(Event::Key(Key::Char('2')));
    assert_eq!(rt.screen.len(), 1);
    assert!(matches!(rt.screen[0], ScreenInstruction::TogglePaneEmbedOrFloating(1)));
    assert!(rt.pty.is_empty());
    assert!(rt.server.is_empty());
}

#[test]
fn undo_rename_pane_plugin_command() {
    let rt = loaded_with_event(Event::Key(Key::Char('3')));
    assert_eq!(rt.screen.len(), 1);
    assert!(matches!(rt.screen[0], ScreenInstruction::UndoRenamePane(1)));
    assert!(rt.pty.is_empty());
    assert!(rt.server.is_empty());
}

#[test]
fn close_focus_plugin_command() {
    let rt = loaded_with_event(Event::Key(Key::Char('4')));
    assert_eq!(rt.screen.len(), 1);
    assert!(matches!(rt.screen[0], ScreenInstruction::CloseFocusedPane(1)));
    assert!(rt.pty.is_empty());
    assert!(rt.server.is_empty());
}

#[test]
fn toggle_active_tab_sync_plugin_command() {
    let rt = loaded_with_event(Event::Key(Key::Char('5')));
    assert_eq!(rt.screen.len(), 1);
    assert!(matches!(rt.screen[0], ScreenInstruction::ToggleActiveSyncTab(1)));
    assert!(rt.pty.is_empty());
    assert!(rt.server.is_empty());
}

#[test]
fn close_focused_tab_plugin_command() {
    let rt = loaded_with_event(Event::Key(Key::Char('6')));
    assert_eq!(rt.screen.len(), 1);
    assert!(matches!(rt.screen[0], ScreenInstruction::CloseTab(1)));
    assert!(rt.pty.is_empty());
    assert!(rt.server.is_empty());
}

#[test]
fn undo_rename_tab_plugin_command() {
    let rt = loaded_with_event(Event::Key(Key::Char('7')));
    assert_eq!(rt.screen.len(), 1);
    assert!(matches!(rt.screen[0], ScreenInstruction::UndoRenameTab(1)));
    assert!(rt.pty.is_empty());
    assert!(rt.server.is_empty());
}

#[test]
fn quit_zellij_plugin_command() {
    let rt = loaded_with_event(Event::Key(Key::Char('8')));
    assert_eq!(rt.server.len(), 1);
    assert!(matches!(rt.server[0], ServerInstruction::ClientExit(1)));
    assert!(rt.screen.is_empty());
    assert!(rt.pty.is_empty());
}

#[test]
fn previous_swap_layout_plugin_command() {
    let rt = loaded_with_event(Event::Key(Key::Ctrl('a')));
    assert_eq!(rt.screen.len(), 1);
    assert!(matches!(rt.screen[0], ScreenInstruction::PreviousSwapLayout(1)));
    assert!(rt.pty.is_empty());
    assert!(rt.server.is_empty());
}

#[test]
fn next_swap_layout_plugin_command() {
    let rt = loaded_with_event(Event::Key(Key::Ctrl('b')));
    assert_eq!(rt.screen.len(), 1);
    assert!(matches!(rt.screen[0], ScreenInstruction::NextSwapLayout(1)));
    assert!(rt.pty.is_empty());
    assert!(rt.server.is_empty());
}

#[test]
fn go_to_tab() {
    let rt = loaded_with_event(Event::Key(Key::Ctrl('e')));
    assert_eq!(rt.screen.len(), 1);
    assert!(matches!(rt.screen[0], ScreenInstruction::GoToTab(2, 1)));
    assert!(rt.pty.is_empty());
    assert!(rt.server.is_empty());
}

#[test]
fn switch_to_tab_plugin_command() {
    let rt = loaded_with_event(Event::Key(Key::Ctrl('o')));
    assert_eq!(rt.screen.len(), 1);
    assert!(matches!(rt.screen[0], ScreenInstruction::GoToTab(1, 1)));
    assert!(rt.pty.is_empty());
    assert!(rt.server.is_empty());
}

#[test]
fn hide_self_plugin_command() {
    let rt = loaded_with_event(Event::Key(Key::Ctrl('p')));
    assert_eq!(rt.screen.len(), 1);
    assert!(matches!(rt.screen[0], ScreenInstruction::SuppressPane(0, 1)));
    assert!(rt.pty.is_empty());
    assert!(rt.server.is_empty());
}

#[test]
fn new_tabs_with_layout_plugin_command() {
    let rt = loaded_with_event(Event::Key(Key::Char('b')));
    assert_eq!(rt.screen.len(), 1);
    match &rt.screen[0] {
        ScreenInstruction::NewTab(Some(layout), 1) => {
            assert!(layout.contains("split_direction=\"vertical\""));
            assert_eq!(layout.matches("tab").count(), 2);
        },
        other => panic!("unexpected {:?}", other),
    }
    assert!(rt.pty.is_empty());
}

#[test]
fn write_plugin_command() {
    let rt = loaded_with_event(Event::Key(Key::Char('n')));
    assert_eq!(rt.screen.len(), 1);
    match &rt.screen[0] {
        ScreenInstruction::WriteCharacter(bytes, 1) => assert_eq!(bytes, &vec![102, 111, 111]),
        other => panic!("unexpected {:?}", other),
    }
}

#[test]
fn write_chars_plugin_command() {
    let rt = loaded_with_event(Event::Key(Key::Char('o')));
    assert_eq!(rt.screen.len(), 1);
    match &rt.screen[0] {
        ScreenInstruction::WriteCharacter(bytes, 1) => assert_eq!(bytes, &b"foo".to_vec()),
        other => panic!("unexpected {:?}", other),
    }
}

#[test]
fn go_to_tab_name_plugin_command() {
    let rt = loaded_with_event(Event::Key(Key::Ctrl('c')));
    assert_eq!(rt.screen.len(), 1);
    match &rt.screen[0] {
        ScreenInstruction::GoToTabName(name, create, 1) => {
            assert_eq!(name, "my tab name");
            assert!(!create);
        },
        other => panic!("unexpected {:?}", other),
    }
}

#[test]
fn focus_or_create_tab_plugin_command() {
    let rt = loaded_with_event(Event::Key(Key::Ctrl('d')));
    assert_eq!(rt.screen.len(), 1);
    match &rt.screen[0] {
        ScreenInstruction::GoToTabName(name, create, 1) => {
            assert_eq!(name, "my tab name");
            assert!(create);
        },
        other => panic!("unexpected {:?}", other),
    }
}

#[test]
fn start_or_reload_plugin() {
    let rt = loaded_with_event(Event::Key(Key::Ctrl('f')));
    assert_eq!(rt.screen.len(), 1);
    match &rt.screen[0] {
        ScreenInstruction::StartOrReloadPluginPane(url) => assert_eq!(url, "file:/path/to/my/plugin.wasm"),
        other => panic!("unexpected {:?}", other),
    }
}

#[test]
fn open_file_plugin_command() {
    let rt = loaded_with_event(Event::Key(Key::Ctrl('g')));
    assert_eq!(rt.pty.len(), 1);
    match &rt.pty[0] {
        PtyInstruction::SpawnTerminal(TerminalAction::OpenFile(path, line), floating, 1) => {
            assert_eq!(path, "/path/to/my/file.rs");
            assert_eq!(*line, None);
            assert_eq!(*floating, false);
        },
        other => panic!("unexpected {:?}", other),
    }
    assert!(rt.screen.is_empty());
    assert!(rt.server.is_empty());
}

#[test]
fn open_file_floating_plugin_command() {
    let rt = loaded_with_event(Event::Key(Key::Ctrl('h')));
    assert_eq!(rt.pty.len(), 1);
    match &rt.pty[0] {
        PtyInstruction::SpawnTerminal(TerminalAction::OpenFile(path, line), floating, 1) => {
            assert_eq!(path, "/path/to/my/file.rs");
            assert_eq!(*line, None);
            assert_eq!(*floating, true);
        },
        other => panic!("unexpected {:?}", other),
    }
    assert!(rt.screen.is_empty());
    assert!(rt.server.is_empty());
}

#[test]
fn open_file_with_line_plugin_command() {
    let rt = loaded_with_event(Event::Key(Key::Ctrl('i')));
    assert_eq!(rt.pty.len(), 1);
    match &rt.pty[0] {
        PtyInstruction::SpawnTerminal(TerminalAction::OpenFile(path, line), floating, 1) => {
            assert_eq!(path, "/path/to/my/file.rs");
            assert_eq!(*line, Some(42));
            assert_eq!(*floating, false);
        },
        other => panic!("unexpected {:?}", other),
    }
    assert!(rt.screen.is_empty());
    assert!(rt.server.is_empty());
}

#[test]
fn open_file_with_line_floating_plugin_command() {
    let rt = loaded_with_event(Event::Key(Key::Ctrl('j')));
    assert_eq!(rt.pty.len(), 1);
    match &rt.pty[0] {
        PtyInstruction::SpawnTerminal(TerminalAction::OpenFile(path, line), floating, 1) => {
            assert_eq!(path, "/path/to/my/file.rs");
            assert_eq!(*line, Some(42));
            assert_eq!(*floating, true);
        },
        other => panic!("unexpected {:?}", other),
    }
    assert!(rt.screen.is_empty());
    assert!(rt.server.is_empty());
}

#[test]
fn open_terminal_plugin_command() {
    let rt = loaded_with_event(Event::Key(Key::Ctrl('k')));
    assert_eq!(rt.pty.len(), 1);
    match &rt.pty[0] {
        PtyInstruction::SpawnTerminal(TerminalAction::Shell(cwd), floating, 1) => {
            assert_eq!(cwd, "/path/to/my/file.rs");
            assert_eq!(*floating, false);
        },
        other => panic!("unexpected {:?}", other),
    }
    assert!(rt.screen.is_empty());
}

#[test]
fn open_terminal_floating_plugin_command() {
    let rt = loaded_with_event(Event::Key(Key::Ctrl('l')));
    assert_eq!(rt.pty.len(), 1);
    match &rt.pty[0] {
        PtyInstruction::SpawnTerminal(TerminalAction::Shell(cwd), floating, 1) => {
            assert_eq!(cwd, "/path/to/my/file.rs");
            assert_eq!(*floating, true);
        },
        other => panic!("unexpected {:?}", other),
    }
    assert!(rt.screen.is_empty());
}

#[test]
fn open_command_pane_plugin_command() {
    let rt = loaded_with_event(Event::Key(Key::Ctrl('m')));
    assert_eq!(rt.pty.len(), 1);
    match &rt.pty[0] {
        PtyInstruction::SpawnTerminal(TerminalAction::RunCommand(command, args), floating, 1) => {
            assert_eq!(command, "/path/to/my/file.rs");
            assert_eq!(args, &vec!["arg1".to_string(), "arg2".to_string()]);
            assert_eq!(*floating, false);
        },
        other => panic!("unexpected {:?}", other),
    }
    assert!(rt.screen.is_empty());
}

#[test]
fn open_command_pane_floating_plugin_command() {
    let rt = loaded_with_event(Event::Key(Key::Ctrl('n')));
    assert_eq!(rt.pty.len(), 1);
    match &rt.pty[0] {
        PtyInstruction::SpawnTerminal(TerminalAction::RunCommand(command, args), floating, 1) => {
            assert_eq!(command, "/path/to/my/file.rs");
            assert_eq!(args, &vec!["arg1".to_string(), "arg2".to_string()]);
            assert_eq!(*floating, true);
        },
        other => panic!("unexpected {:?}", other),
    }
    assert!(rt.screen.is_empty());
}
