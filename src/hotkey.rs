//! How the global listener turns presses into starting and stopping.
use vstd::prelude::*;

use crate::config::{Config, ConfigView};

verus! {

/// An input event seen anywhere on the system, with the identifier of the key
/// or button that was pressed.
pub enum InputEvent {
    KeyPress(String),
    ButtonPress(String),
    Other,
}

impl InputEvent {
    /// The identifier of the pressed key or button; none for any other event.
    pub open spec fn spec_identifier(&self) -> Option<Seq<char>> {
        match self {
            InputEvent::KeyPress(k) => Some(k@),
            InputEvent::ButtonPress(b) => Some(b@),
            InputEvent::Other => None,
        }
    }

    /// The identifier of the pressed key or button; none for any other event.
    pub fn identifier(&self) -> (r: Option<String>)
        ensures
            r matches Some(s) ==> self.spec_identifier() == Some(s@),
            r is None ==> self.spec_identifier() is None,
    {
        match self {
            InputEvent::KeyPress(k) => Some(k.clone()),
            InputEvent::ButtonPress(b) => Some(b.clone()),
            InputEvent::Other => None,
        }
    }
}

/// What the listener does to the clicking flag on one event.
#[derive(PartialEq, Eq, Structural, Clone, Copy, Debug)]
pub enum FlagCommand {
    Start,
    Stop,
    Ignore,
}

/// The command that an event with identifier `id` gives under `c`: the start
/// trigger starts, else the stop trigger stops, and anything else is ignored.
pub open spec fn command_of(c: ConfigView, id: Option<Seq<char>>) -> FlagCommand {
    match id {
        Some(s) => if s == c.start_key {
            FlagCommand::Start
        } else if s == c.stop_key {
            FlagCommand::Stop
        } else {
            FlagCommand::Ignore
        },
        None => FlagCommand::Ignore,
    }
}

/// The clicking flag after `cmd`, when it was `clicking` before.
pub open spec fn flag_after(cmd: FlagCommand, clicking: bool) -> bool {
    match cmd {
        FlagCommand::Start => true,
        FlagCommand::Stop => false,
        FlagCommand::Ignore => clicking,
    }
}

impl FlagCommand {
    /// The clicking flag after this command, when it was `clicking` before.
    pub fn apply(self, clicking: bool) -> (r: bool)
        ensures
            r == flag_after(self, clicking),
    {
        match self {
            FlagCommand::Start => true,
            FlagCommand::Stop => false,
            FlagCommand::Ignore => clicking,
        }
    }
}

impl Config {
    /// What the listener does on `event`: key presses and button presses are
    /// compared by their identifier, first with the start trigger, then with the
    /// stop trigger.
    pub fn command_for(&self, event: &InputEvent) -> (r: FlagCommand)
        ensures
            r == command_of(self@, event.spec_identifier()),
    {
        match event.identifier() {
            Some(id) => if id == self.start_key {
                FlagCommand::Start
            } else if id == self.stop_key {
                FlagCommand::Stop
            } else {
                FlagCommand::Ignore
            },
            None => FlagCommand::Ignore,
        }
    }
}

/// An event whose identifier is neither trigger leaves the clicking flag as it was.
pub proof fn lemma_other_events_keep_flag(c: ConfigView, e: InputEvent, clicking: bool)
    requires
        e.spec_identifier() != Some(c.start_key),
        e.spec_identifier() != Some(c.stop_key),
    ensures
        flag_after(command_of(c, e.spec_identifier()), clicking) == clicking,
{
}

/// A press changes the flag only when its identifier is, letter for letter, the
/// text of the start or the stop trigger: the kind of press plays no part, so a
/// key press matches a trigger captured from a button only through equal text.
pub proof fn lemma_match_needs_equal_text(c: ConfigView, e: InputEvent)
    ensures
        command_of(c, e.spec_identifier()) == FlagCommand::Start <==> e.spec_identifier() == Some(
            c.start_key,
        ),
        command_of(c, e.spec_identifier()) == FlagCommand::Stop <==> (e.spec_identifier()
            == Some(c.stop_key) && c.stop_key != c.start_key),
{
}

} // verus!
