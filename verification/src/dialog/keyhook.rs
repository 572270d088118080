//! Keys in dialogs: the dialog on top sees them before the control that has the focus.

use crate::dialog::completer::KeyMessage;
use vstd::prelude::*;

verus! {

/// A key goes down.
pub const WM_KEYDOWN: u32 = 0x0100;

/// A key goes up.
pub const WM_KEYUP: u32 = 0x0101;

/// A character comes of a key.
pub const WM_CHAR: u32 = 0x0102;

/// The dialogs that watch keys, by what they are known by; the last one is on top.
pub struct KeyHook {
    pub observers: Vec<u64>,
}

/// What a message says of a key, if it is about one.
pub open spec fn key_message_of(msg: u32) -> Option<KeyMessage> {
    if msg == WM_KEYDOWN {
        Some(KeyMessage::Down)
    } else if msg == WM_KEYUP {
        Some(KeyMessage::Up)
    } else if msg == WM_CHAR {
        Some(KeyMessage::Char)
    } else {
        None
    }
}

/// What a message says of a key, if it is about one.
pub fn key_message(msg: u32) -> (key: Option<KeyMessage>)
    ensures
        key == key_message_of(msg),
{
    if msg == WM_KEYDOWN {
        Some(KeyMessage::Down)
    } else if msg == WM_KEYUP {
        Some(KeyMessage::Up)
    } else if msg == WM_CHAR {
        Some(KeyMessage::Char)
    } else {
        None
    }
}

impl KeyHook {
    /// No dialog watches keys.
    pub fn new() -> (hook: Self)
        ensures
            hook.observers@ == Seq::<u64>::empty(),
    {
        KeyHook { observers: Vec::new() }
    }

    /// A dialog opens that watches keys.
    pub fn push(&mut self, observer: u64)
        ensures
            final(self).observers@ == old(self).observers@.push(observer),
    {
        self.observers.push(observer);
    }

    /// The dialog on top closes.
    pub fn pop(&mut self)
        ensures
            final(self).observers@ == (if old(self).observers@.len() > 0 {
                old(self).observers@.drop_last()
            } else {
                old(self).observers@
            }),
    {
        let _ = self.observers.pop();
    }

    /// Who is asked about a message: the dialog on top, where it is about a key.
    pub fn observer_of(&self, msg: u32) -> (observer: Option<u64>)
        ensures
            observer == asked(self.observers@, msg),
    {
        if key_message(msg).is_none() || self.observers.len() == 0 {
            None
        } else {
            Some(self.observers[self.observers.len() - 1])
        }
    }
}

/// Who is asked about a message: the dialog on top, where it is about a key.
pub open spec fn asked(observers: Seq<u64>, msg: u32) -> Option<u64> {
    if key_message_of(msg) is Some && observers.len() > 0 {
        Some(observers.last())
    } else {
        None
    }
}

/// Whether a message goes on to the control: it does unless the dialog that was asked about it
/// kept it. `kept` is what that dialog said, if one was asked.
pub fn sub_proc(kept: Option<bool>) -> (passes: bool)
    ensures
        passes == (kept != Some(true)),
{
    match kept {
        Some(k) => !k,
        None => true,
    }
}

/// A dialog that opens over another sees every key in its place, and once it is closed the other
/// sees them again.
pub proof fn law_top_dialog_has_the_keys(observers: Seq<u64>, observer: u64, msg: u32)
    requires
        key_message_of(msg) is Some,
    ensures
        asked(observers.push(observer), msg) == Some(observer),
        asked(observers.push(observer).drop_last(), msg) == asked(observers, msg),
{
    assert(observers.push(observer).drop_last() =~= observers);
}

} // verus!
