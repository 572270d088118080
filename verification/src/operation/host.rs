//! The user's side of an operation: the log, and what only the user can decide.

use crate::operation::messages;
use crate::operation::{
    Ask, Attribute, ConflictResolution, DeleteWarnChoice, Effect, LogLevel, ProgressHandle, Reply,
    Txt,
};
use vstd::prelude::*;

verus! {

/// What is taken over from a directory that is copied, besides its contents.
#[derive(Clone, Copy, Debug, PartialEq, Eq, Structural)]
pub struct CopyOptions {
    pub copy_attribute: bool,
    pub copy_date: bool,
}

impl Default for CopyOptions {
    fn default() -> (options: Self)
        ensures
            options == (CopyOptions { copy_attribute: false, copy_date: false }),
    {
        CopyOptions { copy_attribute: false, copy_date: false }
    }
}

/// The user's side of an operation. Nothing is promised of what a host answers.
pub trait OperationHost {
    /// Appends a log line.
    fn log(&self, level: LogLevel, text: &str);

    /// Whether the operation is to stop. Asked between files.
    fn cancelled(&self) -> bool;

    /// Returns once the operation is no longer suspended. Called between files.
    fn wait_while_suspended(&self);

    /// What to do about the file `name` that exists at the destination.
    fn resolve_conflict(&self, name: &str) -> ConflictResolution;

    /// Whether the file `name` may be deleted although it is `attr`.
    fn confirm_delete_attr(&self, name: &str, attr: &str) -> DeleteWarnChoice;

    /// Appends a log line that can be rewritten. A host that rewrites none just logs it.
    fn begin_progress(&self, level: LogLevel, text: &str) -> (handle: ProgressHandle)
        default_ensures
            handle == ProgressHandle(0),
    {
        self.log(level, text);
        ProgressHandle(0)
    }

    /// Rewrites a log line. A host that rewrites none does nothing.
    fn update_progress(&self, handle: ProgressHandle, text: &str) {
    }

    /// Rewrites a log line for the last time.
    fn end_progress(&self, handle: ProgressHandle, text: &str);

    /// What is taken over from directories that are copied.
    fn copy_options(&self) -> CopyOptions;
}

/// Whether this is what the host says when it is asked whether to stop.
pub open spec fn may_stop<H: OperationHost>(host: &H, stop: bool) -> bool {
    call_ensures(H::cancelled, (host,), stop)
}

/// Whether the host was waited for until the operation is no longer suspended.
pub open spec fn was_waited_for<H: OperationHost>(host: &H) -> bool {
    call_ensures(H::wait_while_suspended, (host,), ())
}

/// Whether the operation is to stop: it waits while the operation is suspended, and asks
/// before and after. It goes on only after the wait.
pub fn should_stop<H: OperationHost>(host: &H) -> (stop: bool)
    ensures
        may_stop(host, stop),
        !stop ==> was_waited_for(host),
{
    if host.cancelled() {
        return true;
    }
    host.wait_while_suspended();
    host.cancelled()
}

/// Whether this is what the host says about a file that exists at the destination.
pub open spec fn may_resolve<H: OperationHost>(host: &H, name: Txt, choice: ConflictResolution) -> bool {
    exists|said: &str|
        said@ == name && #[trigger] call_ensures(H::resolve_conflict, (host, said), choice)
}

/// Whether this is what the host says about a file that is protected.
pub open spec fn may_warn<H: OperationHost>(
    host: &H,
    name: Txt,
    attribute: Attribute,
    choice: DeleteWarnChoice,
) -> bool {
    exists|said: &str, label: &str|
        said@ == name && label == attribute.shown() && #[trigger] call_ensures(
            H::confirm_delete_attr,
            (host, said, label),
            choice,
        )
}

/// Whether this is the line that the host gives for a text.
pub open spec fn may_begin<H: OperationHost>(
    host: &H,
    level: LogLevel,
    line: Txt,
    handle: ProgressHandle,
) -> bool {
    exists|said: &str|
        said@ == line && #[trigger] call_ensures(H::begin_progress, (host, level, said), handle)
}

/// Whether this is what the host answers to a question. Questions about the disk have no answer
/// here.
pub open spec fn is_answer<H: OperationHost>(host: &H, ask: Ask, reply: Option<Reply>) -> bool {
    match ask {
        Ask::Stop => reply matches Some(Reply::Flag(stop)) && may_stop(host, stop) && (!stop
            ==> was_waited_for(host)),
        Ask::Conflict(name) => reply matches Some(Reply::Choice(choice)) && may_resolve(
            host,
            name@,
            choice,
        ),
        Ask::ConfirmDelete { name, attribute } => reply matches Some(Reply::Warned(choice))
            && may_warn(host, name@, attribute, choice),
        Ask::BeginProgress(level, line) => reply matches Some(Reply::Handle(handle)) && may_begin(
            host,
            level,
            messages::message_text(line@),
            handle,
        ),
        _ => reply is None,
    }
}

/// The answer to a question that is the user's to answer; other questions are for the disk.
pub fn answer<H: OperationHost>(host: &H, ask: &Ask) -> (reply: Option<Reply>)
    ensures
        is_answer(host, *ask, reply),
{
    match ask {
        Ask::Stop => Some(Reply::Flag(should_stop(host))),
        Ask::Conflict(name) => {
            let said = name.as_str();
            let choice = host.resolve_conflict(said);
            assert(call_ensures(H::resolve_conflict, (host, said), choice));
            Some(Reply::Choice(choice))
        },
        Ask::ConfirmDelete { name, attribute } => {
            let said = name.as_str();
            let label = attribute.label();
            let choice = host.confirm_delete_attr(said, label);
            assert(call_ensures(H::confirm_delete_attr, (host, said, label), choice));
            Some(Reply::Warned(choice))
        },
        Ask::BeginProgress(level, line) => {
            let line = line.text();
            let said = line.as_str();
            let handle = host.begin_progress(*level, said);
            assert(call_ensures(H::begin_progress, (host, *level, said), handle));
            Some(Reply::Handle(handle))
        },
        _ => None,
    }
}

/// Whether an effect is seen by the user only, and leaves the disk alone.
pub open spec fn is_shown(effect: Effect) -> bool {
    effect is Log || effect is UpdateProgress || effect is EndProgress
}

/// Whether the host was handed a log line.
pub open spec fn was_logged<H: OperationHost>(host: &H, level: LogLevel, line: Txt) -> bool {
    exists|said: &str| said@ == line && #[trigger] call_ensures(H::log, (host, level, said), ())
}

/// Whether the host was handed another text for a line.
pub open spec fn was_updated<H: OperationHost>(host: &H, handle: ProgressHandle, line: Txt) -> bool {
    exists|said: &str|
        said@ == line && #[trigger] call_ensures(H::update_progress, (host, handle, said), ())
}

/// Whether the host was handed the last text for a line.
pub open spec fn was_ended<H: OperationHost>(host: &H, handle: ProgressHandle, line: Txt) -> bool {
    exists|said: &str|
        said@ == line && #[trigger] call_ensures(H::end_progress, (host, handle, said), ())
}

/// Whether the host was handed what an effect shows.
pub open spec fn was_handed_over<H: OperationHost>(host: &H, effect: Effect) -> bool {
    match effect {
        Effect::Log(level, line) => was_logged(host, level, messages::message_text(line@)),
        Effect::UpdateProgress(handle, line) => was_updated(
            host,
            handle,
            messages::message_text(line@),
        ),
        Effect::EndProgress(handle, line) => was_ended(host, handle, messages::message_text(line@)),
        _ => true,
    }
}

/// Carries out an effect that the user sees, by handing its text to the host; others are for the
/// disk.
pub fn show<H: OperationHost>(host: &H, effect: &Effect) -> (shown: bool)
    ensures
        shown == is_shown(*effect),
        was_handed_over(host, *effect),
{
    match effect {
        Effect::Log(level, line) => {
            let line = line.text();
            let said = line.as_str();
            host.log(*level, said);
            assert(call_ensures(H::log, (host, *level, said), ()));
            true
        },
        Effect::UpdateProgress(handle, line) => {
            let line = line.text();
            let said = line.as_str();
            host.update_progress(*handle, said);
            assert(call_ensures(H::update_progress, (host, *handle, said), ()));
            true
        },
        Effect::EndProgress(handle, line) => {
            let line = line.text();
            let said = line.as_str();
            host.end_progress(*handle, said);
            assert(call_ensures(H::end_progress, (host, *handle, said), ()));
            true
        },
        _ => false,
    }
}

} // verus!
