use vstd::prelude::*;
use vstd::string::StrSliceExecFns;
use vstd::utf8::encode_utf8;
use crate::vocab::{Command, Direction, InputMode, Resize};

verus! {

/// Instructions for the screen collaborator (layout engine and renderer).
#[derive(Debug)]
pub enum ScreenInstruction {
    ChangeMode(InputMode, u16),
    /// Open a new tab, laid out by the given layout text when there is one.
    NewTab(Option<String>, u16),
    SwitchTabNext(u16),
    SwitchTabPrev(u16),
    /// Resize the focused pane, in a direction when one is given.
    Resize(Resize, Option<Direction>, u16),
    FocusNextPane(u16),
    FocusPreviousPane(u16),
    MoveFocus(Direction, u16),
    MoveFocusOrTab(Direction, u16),
    EditScrollback(u16),
    WriteCharacter(Vec<u8>, u16),
    ToggleTab(u16),
    MovePane(u16),
    MovePaneInDirection(Direction, u16),
    ClearScreen(u16),
    ScrollUp(u16),
    ScrollDown(u16),
    ScrollToTop(u16),
    ScrollToBottom(u16),
    PageScrollUp(u16),
    PageScrollDown(u16),
    ToggleActiveTerminalFullscreen(u16),
    TogglePaneFrames,
    TogglePaneEmbedOrFloating(u16),
    UndoRenamePane(u16),
    CloseFocusedPane(u16),
    ToggleActiveSyncTab(u16),
    CloseTab(u16),
    UndoRenameTab(u16),
    PreviousSwapLayout(u16),
    NextSwapLayout(u16),
    /// Go to the tab with this name; create it first when the flag is set.
    GoToTabName(String, bool, u16),
    GoToTab(u32, u16),
    StartOrReloadPluginPane(String),
    /// Hide the pane of this extension.
    SuppressPane(u32, u16),
}

/// What a new terminal pane runs.
#[derive(Debug)]
pub enum TerminalAction {
    /// Open a file in the editor, at a line when one is given.
    OpenFile(String, Option<usize>),
    /// Run a command with arguments.
    RunCommand(String, Vec<String>),
    /// Start a shell in this directory.
    Shell(String),
}

/// Instructions for the pty collaborator.
#[derive(Debug)]
pub enum PtyInstruction {
    SpawnTerminal(TerminalAction, bool, u16),
}

/// Instructions for the server collaborator.
#[derive(Debug)]
pub enum ServerInstruction {
    ClientExit(u16),
    DetachSession(u16),
}

/// An outbound instruction, addressed to exactly one collaborator.
#[derive(Debug)]
pub enum Outbound {
    Screen(ScreenInstruction),
    Pty(PtyInstruction),
    Server(ServerInstruction),
    /// A message for the named worker of the issuing instance: worker, tag, payload.
    Worker(String, String, String),
}

/// The collaborators that the host sends instructions to.
#[derive(PartialEq, Eq, Structural, Clone, Copy, Debug)]
pub enum Collaborator {
    Screen,
    Pty,
    Server,
    Worker,
}

pub open spec fn collaborator_of(o: Outbound) -> Collaborator {
    match o {
        Outbound::Screen(_) => Collaborator::Screen,
        Outbound::Pty(_) => Collaborator::Pty,
        Outbound::Server(_) => Collaborator::Server,
        Outbound::Worker(_, _, _) => Collaborator::Worker,
    }
}

/// The collaborator that a command is meant for.
pub open spec fn target_of(c: Command) -> Collaborator {
    match c {
        Command::OpenFile { .. } | Command::OpenTerminal { .. } | Command::OpenCommandPane {
            ..
        } => Collaborator::Pty,
        Command::Detach | Command::QuitZellij => Collaborator::Server,
        Command::PostMessageTo { .. } => Collaborator::Worker,
        _ => Collaborator::Screen,
    }
}

/// `r` is the instruction that command `c`, issued by extension `plugin_id` on
/// behalf of `client`, stands for.
pub open spec fn translates(c: Command, plugin_id: u32, client: u16, r: Outbound) -> bool {
    match c {
        Command::SwitchToMode(m) => r == Outbound::Screen(ScreenInstruction::ChangeMode(m, client)),
        Command::NewTabsWithLayout(l) => r == Outbound::Screen(
            ScreenInstruction::NewTab(Some(l), client),
        ),
        Command::NewTab => r == Outbound::Screen(ScreenInstruction::NewTab(None, client)),
        Command::GoToNextTab => r == Outbound::Screen(ScreenInstruction::SwitchTabNext(client)),
        Command::GoToPreviousTab => r == Outbound::Screen(ScreenInstruction::SwitchTabPrev(client)),
        Command::ResizeFocusedPane(z) => r == Outbound::Screen(
            ScreenInstruction::Resize(z, None, client),
        ),
        Command::ResizeFocusedPaneWithDirection(z, d) => r == Outbound::Screen(
            ScreenInstruction::Resize(z, Some(d), client),
        ),
        Command::FocusNextPane => r == Outbound::Screen(ScreenInstruction::FocusNextPane(client)),
        Command::FocusPreviousPane => r == Outbound::Screen(
            ScreenInstruction::FocusPreviousPane(client),
        ),
        Command::MoveFocus(d) => r == Outbound::Screen(ScreenInstruction::MoveFocus(d, client)),
        Command::MoveFocusOrTab(d) => r == Outbound::Screen(
            ScreenInstruction::MoveFocusOrTab(d, client),
        ),
        Command::Detach => r == Outbound::Server(ServerInstruction::DetachSession(client)),
        Command::EditScrollback => r == Outbound::Screen(ScreenInstruction::EditScrollback(client)),
        Command::Write(b) => r == Outbound::Screen(ScreenInstruction::WriteCharacter(b, client)),
        Command::WriteChars(s) => match r {
            Outbound::Screen(ScreenInstruction::WriteCharacter(b, cl)) => b@ == encode_utf8(s@)
                && cl == client,
            _ => false,
        },
        Command::ToggleTab => r == Outbound::Screen(ScreenInstruction::ToggleTab(client)),
        Command::MovePane => r == Outbound::Screen(ScreenInstruction::MovePane(client)),
        Command::MovePaneWithDirection(d) => r == Outbound::Screen(
            ScreenInstruction::MovePaneInDirection(d, client),
        ),
        Command::ClearScreen => r == Outbound::Screen(ScreenInstruction::ClearScreen(client)),
        Command::ScrollUp => r == Outbound::Screen(ScreenInstruction::ScrollUp(client)),
        Command::ScrollDown => r == Outbound::Screen(ScreenInstruction::ScrollDown(client)),
        Command::ScrollToTop => r == Outbound::Screen(ScreenInstruction::ScrollToTop(client)),
        Command::ScrollToBottom => r == Outbound::Screen(ScreenInstruction::ScrollToBottom(client)),
        Command::PageScrollUp => r == Outbound::Screen(ScreenInstruction::PageScrollUp(client)),
        Command::PageScrollDown => r == Outbound::Screen(ScreenInstruction::PageScrollDown(client)),
        Command::ToggleFocusFullscreen => r == Outbound::Screen(
            ScreenInstruction::ToggleActiveTerminalFullscreen(client),
        ),
        Command::TogglePaneFrames => r == Outbound::Screen(ScreenInstruction::TogglePaneFrames),
        Command::TogglePaneEmbedOrEject => r == Outbound::Screen(
            ScreenInstruction::TogglePaneEmbedOrFloating(client),
        ),
        Command::UndoRenamePane => r == Outbound::Screen(ScreenInstruction::UndoRenamePane(client)),
        Command::CloseFocus => r == Outbound::Screen(ScreenInstruction::CloseFocusedPane(client)),
        Command::ToggleActiveTabSync => r == Outbound::Screen(
            ScreenInstruction::ToggleActiveSyncTab(client),
        ),
        Command::CloseFocusedTab => r == Outbound::Screen(ScreenInstruction::CloseTab(client)),
        Command::UndoRenameTab => r == Outbound::Screen(ScreenInstruction::UndoRenameTab(client)),
        Command::QuitZellij => r == Outbound::Server(ServerInstruction::ClientExit(client)),
        Command::PreviousSwapLayout => r == Outbound::Screen(
            ScreenInstruction::PreviousSwapLayout(client),
        ),
        Command::NextSwapLayout => r == Outbound::Screen(ScreenInstruction::NextSwapLayout(client)),
        Command::GoToTabName(n) => r == Outbound::Screen(
            ScreenInstruction::GoToTabName(n, false, client),
        ),
        Command::FocusOrCreateTab(n) => r == Outbound::Screen(
            ScreenInstruction::GoToTabName(n, true, client),
        ),
        Command::GoToTab(i) => r == Outbound::Screen(ScreenInstruction::GoToTab(i, client)),
        Command::StartOrReloadPlugin(u) => r == Outbound::Screen(
            ScreenInstruction::StartOrReloadPluginPane(u),
        ),
        Command::OpenFile { path, line, floating } => r == Outbound::Pty(
            PtyInstruction::SpawnTerminal(TerminalAction::OpenFile(path, line), floating, client),
        ),
        Command::OpenTerminal { cwd, floating } => r == Outbound::Pty(
            PtyInstruction::SpawnTerminal(TerminalAction::Shell(cwd), floating, client),
        ),
        Command::OpenCommandPane { command, args, floating } => r == Outbound::Pty(
            PtyInstruction::SpawnTerminal(TerminalAction::RunCommand(command, args), floating, client),
        ),
        Command::SwitchTabTo(i) => r == Outbound::Screen(ScreenInstruction::GoToTab(i, client)),
        Command::HideSelf => r == Outbound::Screen(ScreenInstruction::SuppressPane(plugin_id, client)),
        Command::PostMessageTo { worker, tag, payload } => r == Outbound::Worker(worker, tag, payload),
    }
}

/// A translated instruction goes to the collaborator its command is meant for.
pub proof fn lemma_translation_targets(c: Command, plugin_id: u32, client: u16, r: Outbound)
    requires
        translates(c, plugin_id, client, r),
    ensures
        collaborator_of(r) == target_of(c),
{
}

/// The one instruction that command `c` stands for.
pub fn translate(c: Command, plugin_id: u32, client: u16) -> (r: Outbound)
    ensures
        translates(c, plugin_id, client, r),
        collaborator_of(r) == target_of(c),
{
    match c {
        Command::SwitchToMode(m) => Outbound::Screen(ScreenInstruction::ChangeMode(m, client)),
        Command::NewTabsWithLayout(l) => Outbound::Screen(ScreenInstruction::NewTab(Some(l), client)),
        Command::NewTab => Outbound::Screen(ScreenInstruction::NewTab(None, client)),
        Command::GoToNextTab => Outbound::Screen(ScreenInstruction::SwitchTabNext(client)),
        Command::GoToPreviousTab => Outbound::Screen(ScreenInstruction::SwitchTabPrev(client)),
        Command::ResizeFocusedPane(z) => Outbound::Screen(ScreenInstruction::Resize(z, None, client)),
        Command::ResizeFocusedPaneWithDirection(z, d) => Outbound::Screen(
            ScreenInstruction::Resize(z, Some(d), client),
        ),
        Command::FocusNextPane => Outbound::Screen(ScreenInstruction::FocusNextPane(client)),
        Command::FocusPreviousPane => Outbound::Screen(ScreenInstruction::FocusPreviousPane(client)),
        Command::MoveFocus(d) => Outbound::Screen(ScreenInstruction::MoveFocus(d, client)),
        Command::MoveFocusOrTab(d) => Outbound::Screen(ScreenInstruction::MoveFocusOrTab(d, client)),
        Command::Detach => Outbound::Server(ServerInstruction::DetachSession(client)),
        Command::EditScrollback => Outbound::Screen(ScreenInstruction::EditScrollback(client)),
        Command::Write(b) => Outbound::Screen(ScreenInstruction::WriteCharacter(b, client)),
        Command::WriteChars(s) => Outbound::Screen(
            ScreenInstruction::WriteCharacter(s.as_str().as_bytes_vec(), client),
        ),
        Command::ToggleTab => Outbound::Screen(ScreenInstruction::ToggleTab(client)),
        Command::MovePane => Outbound::Screen(ScreenInstruction::MovePane(client)),
        Command::MovePaneWithDirection(d) => Outbound::Screen(
            ScreenInstruction::MovePaneInDirection(d, client),
        ),
        Command::ClearScreen => Outbound::Screen(ScreenInstruction::ClearScreen(client)),
        Command::ScrollUp => Outbound::Screen(ScreenInstruction::ScrollUp(client)),
        Command::ScrollDown => Outbound::Screen(ScreenInstruction::ScrollDown(client)),
        Command::ScrollToTop => Outbound::Screen(ScreenInstruction::ScrollToTop(client)),
        Command::ScrollToBottom => Outbound::Screen(ScreenInstruction::ScrollToBottom(client)),
        Command::PageScrollUp => Outbound::Screen(ScreenInstruction::PageScrollUp(client)),
        Command::PageScrollDown => Outbound::Screen(ScreenInstruction::PageScrollDown(client)),
        Command::ToggleFocusFullscreen => Outbound::Screen(
            ScreenInstruction::ToggleActiveTerminalFullscreen(client),
        ),
        Command::TogglePaneFrames => Outbound::Screen(ScreenInstruction::TogglePaneFrames),
        Command::TogglePaneEmbedOrEject => Outbound::Screen(
            ScreenInstruction::TogglePaneEmbedOrFloating(client),
        ),
        Command::UndoRenamePane => Outbound::Screen(ScreenInstruction::UndoRenamePane(client)),
        Command::CloseFocus => Outbound::Screen(ScreenInstruction::CloseFocusedPane(client)),
        Command::ToggleActiveTabSync => Outbound::Screen(ScreenInstruction::ToggleActiveSyncTab(client)),
        Command::CloseFocusedTab => Outbound::Screen(ScreenInstruction::CloseTab(client)),
        Command::UndoRenameTab => Outbound::Screen(ScreenInstruction::UndoRenameTab(client)),
        Command::QuitZellij => Outbound::Server(ServerInstruction::ClientExit(client)),
        Command::PreviousSwapLayout => Outbound::Screen(ScreenInstruction::PreviousSwapLayout(client)),
        Command::NextSwapLayout => Outbound::Screen(ScreenInstruction::NextSwapLayout(client)),
        Command::GoToTabName(n) => Outbound::Screen(ScreenInstruction::GoToTabName(n, false, client)),
        Command::FocusOrCreateTab(n) => Outbound::Screen(
            ScreenInstruction::GoToTabName(n, true, client),
        ),
        Command::GoToTab(i) => Outbound::Screen(ScreenInstruction::GoToTab(i, client)),
        Command::StartOrReloadPlugin(u) => Outbound::Screen(
            ScreenInstruction::StartOrReloadPluginPane(u),
        ),
        Command::OpenFile { path, line, floating } => Outbound::Pty(
            PtyInstruction::SpawnTerminal(TerminalAction::OpenFile(path, line), floating, client),
        ),
        Command::OpenTerminal { cwd, floating } => Outbound::Pty(
            PtyInstruction::SpawnTerminal(TerminalAction::Shell(cwd), floating, client),
        ),
        Command::OpenCommandPane { command, args, floating } => Outbound::Pty(
            PtyInstruction::SpawnTerminal(TerminalAction::RunCommand(command, args), floating, client),
        ),
        Command::SwitchTabTo(i) => Outbound::Screen(ScreenInstruction::GoToTab(i, client)),
        Command::HideSelf => Outbound::Screen(ScreenInstruction::SuppressPane(plugin_id, client)),
        Command::PostMessageTo { worker, tag, payload } => Outbound::Worker(worker, tag, payload),
    }
}

/// `out` holds, position by position, the instructions that `cmds` stand for.
pub open spec fn translates_all(cmds: Seq<Command>, plugin_id: u32, client: u16, out: Seq<Outbound>) -> bool {
    &&& out.len() == cmds.len()
    &&& forall|i: int| 0 <= i < cmds.len() ==> translates(#[trigger] cmds[i], plugin_id, client, out[i])
}

/// The instructions that `cmds` stand for, one per command and in the order the
/// commands were issued.
pub fn translate_all(cmds: Vec<Command>, plugin_id: u32, client: u16) -> (r: Vec<Outbound>)
    ensures
        translates_all(cmds@, plugin_id, client, r@),
{
    let ghost orig = cmds@;
    let mut rest = cmds;
    let mut out: Vec<Outbound> = Vec::new();
    while rest.len() > 0
        invariant
            out@.len() + rest@.len() == orig.len(),
            rest@ == orig.subrange(out@.len() as int, orig.len() as int),
            forall|i: int| 0 <= i < out@.len() ==> translates(#[trigger] orig[i], plugin_id, client, out@[i]),
        decreases rest@.len(),
    {
        let c = rest.remove(0);
        let o = translate(c, plugin_id, client);
        out.push(o);
    }
    out
}

/// Each command stands for exactly one instruction, in order, and every
/// instruction goes to the collaborator its own command is meant for, so no
/// collaborator hears of a command that was not meant for it.
pub proof fn lemma_one_instruction_per_command(
    cmds: Seq<Command>,
    plugin_id: u32,
    client: u16,
    out: Seq<Outbound>,
)
    requires
        translates_all(cmds, plugin_id, client, out),
    ensures
        out.len() == cmds.len(),
        forall|i: int| 0 <= i < out.len() ==> collaborator_of(#[trigger] out[i]) == target_of(cmds[i]),
        forall|i: int|
            0 <= i < out.len() ==> exists|j: int|
                0 <= j < cmds.len() && #[trigger] target_of(cmds[j]) == collaborator_of(#[trigger] out[i]),
{
    assert forall|i: int| 0 <= i < out.len() implies collaborator_of(#[trigger] out[i]) == target_of(cmds[i]) by {
        assert(translates(cmds[i], plugin_id, client, out[i]));
        lemma_translation_targets(cmds[i], plugin_id, client, out[i]);
    }
}

} // verus!
