use vstd::prelude::*;

verus! {

/// A key press as delivered to an extension.
#[derive(PartialEq, Eq, Structural, Clone, Copy, Debug)]
pub enum Key {
    PageDown,
    PageUp,
    Left,
    Down,
    Up,
    Right,
    Home,
    End,
    Backspace,
    Delete,
    Insert,
    F(u8),
    Char(char),
    Alt(char),
    AltArrow(Direction),
    Ctrl(char),
    BackTab,
    Null,
    Esc,
}

/// The multiplexer's input modes.
#[derive(PartialEq, Eq, Structural, Clone, Copy, Debug)]
pub enum InputMode {
    Normal,
    Locked,
    Resize,
    Pane,
    Tab,
    Scroll,
    EnterSearch,
    Search,
    RenameTab,
    RenamePane,
    Session,
    Move,
    Prompt,
    Tmux,
}

/// A direction for focus and pane movement.
#[derive(PartialEq, Eq, Structural, Clone, Copy, Debug)]
pub enum Direction {
    Left,
    Right,
    Up,
    Down,
}

/// Whether a resize grows or shrinks the focused pane.
#[derive(PartialEq, Eq, Structural, Clone, Copy, Debug)]
pub enum Resize {
    Increase,
    Decrease,
}

/// The kind of an [`Event`], without its payload; extensions subscribe by kind.
#[derive(PartialEq, Eq, Structural, Clone, Copy, Debug)]
pub enum EventType {
    InputReceived,
    Key,
    ModeUpdate,
    SystemClipboardFailure,
    CustomMessage,
    FileSystemCreate,
    FileSystemUpdate,
    FileSystemDelete,
    Visible,
    ClientAdded,
    Resized,
}

/// An event delivered to extension instances. Events are immutable values and
/// are copied when fanned out to several instances.
#[derive(Debug)]
pub enum Event {
    InputReceived,
    Key(Key),
    ModeUpdate(InputMode),
    SystemClipboardFailure,
    /// A message from another party (most often a worker): a tag and a payload.
    CustomMessage(String, String),
    /// A file was created under the watched directory; one event per path.
    FileSystemCreate(String),
    FileSystemUpdate(String),
    FileSystemDelete(String),
    Visible(bool),
    /// A client connected; delivered to every instance whatever it subscribes to.
    ClientAdded(u16),
    /// The instance's pane now has this many rows and columns; delivered
    /// whatever the instance subscribes to.
    Resized(usize, usize),
}

pub open spec fn event_type_of(e: Event) -> EventType {
    match e {
        Event::InputReceived => EventType::InputReceived,
        Event::Key(_) => EventType::Key,
        Event::ModeUpdate(_) => EventType::ModeUpdate,
        Event::SystemClipboardFailure => EventType::SystemClipboardFailure,
        Event::CustomMessage(_, _) => EventType::CustomMessage,
        Event::FileSystemCreate(_) => EventType::FileSystemCreate,
        Event::FileSystemUpdate(_) => EventType::FileSystemUpdate,
        Event::FileSystemDelete(_) => EventType::FileSystemDelete,
        Event::Visible(_) => EventType::Visible,
        Event::ClientAdded(_) => EventType::ClientAdded,
        Event::Resized(_, _) => EventType::Resized,
    }
}

impl Event {
    /// The kind of this event.
    pub fn event_type(&self) -> (r: EventType)
        ensures
            r == event_type_of(*self),
    {
        match self {
            Event::InputReceived => EventType::InputReceived,
            Event::Key(_) => EventType::Key,
            Event::ModeUpdate(_) => EventType::ModeUpdate,
            Event::SystemClipboardFailure => EventType::SystemClipboardFailure,
            Event::CustomMessage(_, _) => EventType::CustomMessage,
            Event::FileSystemCreate(_) => EventType::FileSystemCreate,
            Event::FileSystemUpdate(_) => EventType::FileSystemUpdate,
            Event::FileSystemDelete(_) => EventType::FileSystemDelete,
            Event::Visible(_) => EventType::Visible,
            Event::ClientAdded(_) => EventType::ClientAdded,
            Event::Resized(_, _) => EventType::Resized,
        }
    }

    /// An identical copy of this event, for delivery to one more instance.
    pub fn duplicate(&self) -> (r: Event)
        ensures
            r == *self,
    {
        match self {
            Event::InputReceived => Event::InputReceived,
            Event::Key(k) => Event::Key(*k),
            Event::ModeUpdate(m) => Event::ModeUpdate(*m),
            Event::SystemClipboardFailure => Event::SystemClipboardFailure,
            Event::CustomMessage(t, p) => Event::CustomMessage(t.clone(), p.clone()),
            Event::FileSystemCreate(p) => Event::FileSystemCreate(p.clone()),
            Event::FileSystemUpdate(p) => Event::FileSystemUpdate(p.clone()),
            Event::FileSystemDelete(p) => Event::FileSystemDelete(p.clone()),
            Event::Visible(v) => Event::Visible(*v),
            Event::ClientAdded(c) => Event::ClientAdded(*c),
            Event::Resized(r, c) => Event::Resized(*r, *c),
        }
    }
}

/// Whether `t` occurs in the subscription list `subs`.
pub open spec fn subscribed(subs: Seq<EventType>, t: EventType) -> bool {
    subs.contains(t)
}

/// Whether `t` occurs in `subs`.
pub fn is_subscribed(subs: &Vec<EventType>, t: EventType) -> (r: bool)
    ensures
        r == subscribed(subs@, t),
{
    let mut i: usize = 0;
    while i < subs.len()
        invariant
            0 <= i <= subs.len(),
            forall|j: int| 0 <= j < i ==> subs@[j] != t,
        decreases subs.len() - i,
    {
        if subs[i] == t {
            return true;
        }
        i = i + 1;
    }
    false
}

/// The host's own lifecycle kinds, which every instance takes whatever it subscribes to.
pub open spec fn is_lifecycle(t: EventType) -> bool {
    t == EventType::ClientAdded || t == EventType::Resized
}

/// Whether an instance with subscriptions `subs` takes events of kind `t`.
pub open spec fn wants(subs: Seq<EventType>, t: EventType) -> bool {
    subscribed(subs, t) || is_lifecycle(t)
}

pub fn is_wanted(subs: &Vec<EventType>, t: EventType) -> (r: bool)
    ensures
        r == wants(subs@, t),
{
    t == EventType::ClientAdded || t == EventType::Resized || is_subscribed(subs, t)
}

/// A request that an extension instance makes of its host while it handles an
/// event. Each command carries only the data its downstream instruction needs.
#[derive(Debug)]
pub enum Command {
    SwitchToMode(InputMode),
    NewTabsWithLayout(String),
    NewTab,
    GoToNextTab,
    GoToPreviousTab,
    ResizeFocusedPane(Resize),
    ResizeFocusedPaneWithDirection(Resize, Direction),
    FocusNextPane,
    FocusPreviousPane,
    MoveFocus(Direction),
    MoveFocusOrTab(Direction),
    Detach,
    EditScrollback,
    Write(Vec<u8>),
    WriteChars(String),
    ToggleTab,
    MovePane,
    MovePaneWithDirection(Direction),
    ClearScreen,
    ScrollUp,
    ScrollDown,
    ScrollToTop,
    ScrollToBottom,
    PageScrollUp,
    PageScrollDown,
    ToggleFocusFullscreen,
    TogglePaneFrames,
    TogglePaneEmbedOrEject,
    UndoRenamePane,
    CloseFocus,
    ToggleActiveTabSync,
    CloseFocusedTab,
    UndoRenameTab,
    QuitZellij,
    PreviousSwapLayout,
    NextSwapLayout,
    GoToTabName(String),
    FocusOrCreateTab(String),
    /// Go to the tab with this (1-based) position.
    GoToTab(u32),
    StartOrReloadPlugin(String),
    OpenFile { path: String, line: Option<usize>, floating: bool },
    OpenTerminal { cwd: String, floating: bool },
    OpenCommandPane { command: String, args: Vec<String>, floating: bool },
    /// Switch to the tab with this (1-based) position.
    SwitchTabTo(u32),
    HideSelf,
    /// Post a message to one of the instance's own named workers.
    PostMessageTo { worker: String, tag: String, payload: String },
}

} // verus!
