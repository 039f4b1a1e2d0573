use vstd::prelude::*;
use vstd::string::StringExecFns;
use crate::vocab::{Direction, Event, InputMode, Key};

verus! {

pub open spec fn digit_char(d: nat) -> char {
    if d == 0 { '0' }
    else if d == 1 { '1' }
    else if d == 2 { '2' }
    else if d == 3 { '3' }
    else if d == 4 { '4' }
    else if d == 5 { '5' }
    else if d == 6 { '6' }
    else if d == 7 { '7' }
    else if d == 8 { '8' }
    else { '9' }
}

/// The decimal digits of `n`, most significant first, with no sign or padding.
pub open spec fn decimal(n: nat) -> Seq<char>
    decreases n,
{
    if n < 10 {
        seq![digit_char(n)]
    } else {
        decimal(n / 10) + seq![digit_char(n % 10)]
    }
}

/// Relies on `usize`'s `Display` (through `to_string`): plain decimal digits,
/// no sign, no padding.
#[verifier::external_body]
pub(crate) fn decimal_text(n: usize) -> (r: String)
    ensures
        r@ == decimal(n as nat),
{
    n.to_string()
}

/// What `str`'s `Debug` writes for a string: the string in double quotes, with
/// quotes, backslashes and unprintable characters escaped.
pub uninterp spec fn debug_str(s: Seq<char>) -> Seq<char>;

/// What `char`'s `Debug` writes for a character: the character in single
/// quotes, escaped where needed.
pub uninterp spec fn debug_char(c: char) -> Seq<char>;

/// Relies on `str`'s `Debug` (through `format!("{:?}")`): the result depends on
/// the characters alone.
#[verifier::external_body]
pub fn quoted(s: &str) -> (r: String)
    ensures
        r@ == debug_str(s@),
{
    format!("{:?}", s)
}

/// Relies on `char`'s `Debug` (through `format!("{:?}")`): the result depends on
/// the character alone.
#[verifier::external_body]
pub fn quoted_char(c: char) -> (r: String)
    ensures
        r@ == debug_char(c),
{
    format!("{:?}", c)
}

pub open spec fn direction_text(d: Direction) -> Seq<char> {
    match d {
        Direction::Left => "Left"@,
        Direction::Right => "Right"@,
        Direction::Up => "Up"@,
        Direction::Down => "Down"@,
    }
}

pub fn direction_name(d: Direction) -> (r: &'static str)
    ensures
        r@ == direction_text(d),
{
    match d {
        Direction::Left => "Left",
        Direction::Right => "Right",
        Direction::Up => "Up",
        Direction::Down => "Down",
    }
}

pub open spec fn mode_text(m: InputMode) -> Seq<char> {
    match m {
        InputMode::Normal => "Normal"@,
        InputMode::Locked => "Locked"@,
        InputMode::Resize => "Resize"@,
        InputMode::Pane => "Pane"@,
        InputMode::Tab => "Tab"@,
        InputMode::Scroll => "Scroll"@,
        InputMode::EnterSearch => "EnterSearch"@,
        InputMode::Search => "Search"@,
        InputMode::RenameTab => "RenameTab"@,
        InputMode::RenamePane => "RenamePane"@,
        InputMode::Session => "Session"@,
        InputMode::Move => "Move"@,
        InputMode::Prompt => "Prompt"@,
        InputMode::Tmux => "Tmux"@,
    }
}

pub fn mode_name(m: InputMode) -> (r: &'static str)
    ensures
        r@ == mode_text(m),
{
    match m {
        InputMode::Normal => "Normal",
        InputMode::Locked => "Locked",
        InputMode::Resize => "Resize",
        InputMode::Pane => "Pane",
        InputMode::Tab => "Tab",
        InputMode::Scroll => "Scroll",
        InputMode::EnterSearch => "EnterSearch",
        InputMode::Search => "Search",
        InputMode::RenameTab => "RenameTab",
        InputMode::RenamePane => "RenamePane",
        InputMode::Session => "Session",
        InputMode::Move => "Move",
        InputMode::Prompt => "Prompt",
        InputMode::Tmux => "Tmux",
    }
}

/// A key as the multiplexer's debug text writes it; an `Alt` key is written
/// with the character or arrow it wraps.
pub open spec fn key_text(k: Key) -> Seq<char> {
    match k {
        Key::PageDown => "PageDown"@,
        Key::PageUp => "PageUp"@,
        Key::Left => "Left"@,
        Key::Down => "Down"@,
        Key::Up => "Up"@,
        Key::Right => "Right"@,
        Key::Home => "Home"@,
        Key::End => "End"@,
        Key::Backspace => "Backspace"@,
        Key::Delete => "Delete"@,
        Key::Insert => "Insert"@,
        Key::F(n) => "F("@ + decimal(n as nat) + ")"@,
        Key::Char(c) => "Char("@ + debug_char(c) + ")"@,
        Key::Alt(c) => "Alt(Char("@ + debug_char(c) + "))"@,
        Key::AltArrow(d) => "Alt(Direction("@ + direction_text(d) + "))"@,
        Key::Ctrl(c) => "Ctrl("@ + debug_char(c) + ")"@,
        Key::BackTab => "BackTab"@,
        Key::Null => "Null"@,
        Key::Esc => "Esc"@,
    }
}

fn text(t: &str) -> (r: String)
    ensures
        r@ == t@,
{
    String::from_str(t)
}

/// `before`, then `middle`, then `after`.
fn wrapped(before: &str, middle: String, after: &str) -> (r: String)
    ensures
        r@ == before@ + middle@ + after@,
{
    let mut r = text(before);
    r.append(middle.as_str());
    r.append(after);
    r
}

pub fn key_description(k: Key) -> (r: String)
    ensures
        r@ == key_text(k),
{
    match k {
        Key::PageDown => text("PageDown"),
        Key::PageUp => text("PageUp"),
        Key::Left => text("Left"),
        Key::Down => text("Down"),
        Key::Up => text("Up"),
        Key::Right => text("Right"),
        Key::Home => text("Home"),
        Key::End => text("End"),
        Key::Backspace => text("Backspace"),
        Key::Delete => text("Delete"),
        Key::Insert => text("Insert"),
        Key::F(n) => wrapped("F(", decimal_text(n as usize), ")"),
        Key::Char(c) => wrapped("Char(", quoted_char(c), ")"),
        Key::Alt(c) => wrapped("Alt(Char(", quoted_char(c), "))"),
        Key::AltArrow(d) => wrapped("Alt(Direction(", text(direction_name(d)), "))"),
        Key::Ctrl(c) => wrapped("Ctrl(", quoted_char(c), ")"),
        Key::BackTab => text("BackTab"),
        Key::Null => text("Null"),
        Key::Esc => text("Esc"),
    }
}

/// An event as the multiplexer's debug text writes it, with its data; a
/// filesystem event is written with its path as a one-path list.
pub open spec fn event_text(e: Event) -> Seq<char> {
    match e {
        Event::InputReceived => "InputReceived"@,
        Event::Key(k) => "Key("@ + key_text(k) + ")"@,
        Event::ModeUpdate(m) => "ModeUpdate("@ + mode_text(m) + ")"@,
        Event::SystemClipboardFailure => "SystemClipboardFailure"@,
        Event::CustomMessage(t, p) => "CustomMessage("@ + debug_str(t@) + ", "@ + debug_str(p@) + ")"@,
        Event::FileSystemCreate(p) => "FileSystemCreate(["@ + debug_str(p@) + "])"@,
        Event::FileSystemUpdate(p) => "FileSystemUpdate(["@ + debug_str(p@) + "])"@,
        Event::FileSystemDelete(p) => "FileSystemDelete(["@ + debug_str(p@) + "])"@,
        Event::Visible(b) => if b { "Visible(true)"@ } else { "Visible(false)"@ },
        Event::ClientAdded(c) => "ClientAdded("@ + decimal(c as nat) + ")"@,
        Event::Resized(r, c) => "Resized("@ + decimal(r as nat) + ", "@ + decimal(c as nat) + ")"@,
    }
}

pub fn event_description(e: &Event) -> (r: String)
    ensures
        r@ == event_text(*e),
{
    match e {
        Event::InputReceived => text("InputReceived"),
        Event::Key(k) => wrapped("Key(", key_description(*k), ")"),
        Event::ModeUpdate(m) => wrapped("ModeUpdate(", text(mode_name(*m)), ")"),
        Event::SystemClipboardFailure => text("SystemClipboardFailure"),
        Event::CustomMessage(t, p) => {
            let mut r = wrapped("CustomMessage(", quoted(t.as_str()), ", ");
            r.append(quoted(p.as_str()).as_str());
            r.append(")");
            r
        },
        Event::FileSystemCreate(p) => wrapped("FileSystemCreate([", quoted(p.as_str()), "])"),
        Event::FileSystemUpdate(p) => wrapped("FileSystemUpdate([", quoted(p.as_str()), "])"),
        Event::FileSystemDelete(p) => wrapped("FileSystemDelete([", quoted(p.as_str()), "])"),
        Event::Visible(b) => if *b { text("Visible(true)") } else { text("Visible(false)") },
        Event::ClientAdded(c) => wrapped("ClientAdded(", decimal_text(*c as usize), ")"),
        Event::Resized(r, c) => {
            let mut t = wrapped("Resized(", decimal_text(*r), ", ");
            t.append(decimal_text(*c).as_str());
            t.append(")");
            t
        },
    }
}

} // verus!
