//! Background tasks.
//!
//! A task is a unit of work that runs elsewhere and reports once, through a
//! one-shot channel. The handle here is the receiving end: it is polled
//! without ever blocking, and it knows whether the work may be abandoned.

use vstd::prelude::*;

verus! {

/// `tokio::sync::oneshot::Receiver`: the receiving end of a one-shot channel.
#[verifier::external_type_specification]
#[verifier::external_body]
#[verifier::reject_recursive_types(T)]
pub struct ExReceiver<T>(tokio::sync::oneshot::Receiver<T>);

/// `tokio::sync::oneshot::Sender`: the sending end of a one-shot channel.
#[verifier::external_type_specification]
#[verifier::external_body]
#[verifier::reject_recursive_types(T)]
pub struct ExSender<T>(tokio::sync::oneshot::Sender<T>);

/// `tokio::sync::oneshot::error::RecvError`, which the receiver names as a
/// future's output.
#[verifier::external_type_specification]
#[verifier::external_body]
pub struct ExRecvError(tokio::sync::oneshot::error::RecvError);

/// `anyhow::Error`: whatever error the work produced. It is handed on
/// unread.
#[verifier::external_type_specification]
#[verifier::external_body]
pub struct ExFailure(anyhow::Error);

/// What one look at a channel found.
pub enum Received<T> {
    /// The value that was sent.
    Value(T),
    /// Nothing yet: the sender is alive and has not sent.
    Empty,
    /// Nothing, and nothing will come: the sender is gone, or the value was
    /// taken before.
    Closed,
}

/// `tokio::sync::oneshot::channel`: a fresh channel. Nothing is claimed of
/// the two ends.
#[verifier::external_body]
fn open_channel<T>() -> (ends: (tokio::sync::oneshot::Sender<T>, tokio::sync::oneshot::Receiver<T>)) {
    tokio::sync::oneshot::channel()
}

/// `Receiver::try_recv`: one look at the channel, which never waits. What it
/// finds depends on the sender, so nothing is claimed of it.
#[verifier::external_body]
fn try_receive<T>(receiver: &mut tokio::sync::oneshot::Receiver<T>) -> (found: Received<T>) {
    match receiver.try_recv() {
        Ok(value) => Received::Value(value),
        Err(tokio::sync::oneshot::error::TryRecvError::Empty) => Received::Empty,
        Err(tokio::sync::oneshot::error::TryRecvError::Closed) => Received::Closed,
    }
}

/// Why a poll failed.
pub enum TaskError {
    /// The work ran and ended with this error.
    Failed(anyhow::Error),
    /// The work ended without reporting, or had reported before.
    Disconnected,
}

/// What a poll returns for what the channel held: a value that is `Ok`
/// completes the task, one that is `Err` fails it with that error, an empty
/// channel means not yet, and a closed one is a failure of its own.
pub open spec fn outcome_of<T>(found: Received<Result<T, anyhow::Error>>) -> Result<
    Option<T>,
    TaskError,
> {
    match found {
        Received::Value(Ok(value)) => Ok(Some(value)),
        Received::Value(Err(failure)) => Err(TaskError::Failed(failure)),
        Received::Empty => Ok(None),
        Received::Closed => Err(TaskError::Disconnected),
    }
}

/// What a poll returns for what the channel held.
pub fn poll_outcome<T>(found: Received<Result<T, anyhow::Error>>) -> (polled: Result<
    Option<T>,
    TaskError,
>)
    ensures
        polled == outcome_of(found),
{
    match found {
        Received::Value(Ok(value)) => Ok(Some(value)),
        Received::Value(Err(failure)) => Err(TaskError::Failed(failure)),
        Received::Empty => Ok(None),
        Received::Closed => Err(TaskError::Disconnected),
    }
}

/// Whether to let go of a task now is a fatal mistake: the task must
/// complete, it has not been polled to its end, its work has neither
/// reported nor gone (the channel was found empty), and the thread is not
/// already unwinding. Work that has reported is complete, also where no
/// poll has taken its report yet.
pub fn abandonment_is_fatal<T>(
    must_complete: bool,
    resolved: bool,
    found: &Received<T>,
    unwinding: bool,
) -> (fatal: bool)
    ensures
        fatal == (must_complete && !resolved && *found is Empty && !unwinding),
{
    let empty = match found {
        Received::Empty => true,
        _ => false,
    };
    must_complete && !resolved && empty && !unwinding
}

/// The handle of one background task.
#[verifier::reject_recursive_types(T)]
pub struct Task<T> {
    receiver: tokio::sync::oneshot::Receiver<Result<T, anyhow::Error>>,
    panic_on_drop: bool,
    resolved: bool,
    /// What a look before a drop found in the channel and no poll has
    /// handed out yet.
    held: Option<Result<T, anyhow::Error>>,
    /// Whether a look before a drop found the channel closed.
    closed: bool,
}

impl<T> Task<T> {
    /// Whether the task may not be abandoned before it has resolved.
    pub closed spec fn must_complete(&self) -> bool {
        self.panic_on_drop
    }

    /// Whether a poll has already returned the task's result or failure.
    pub closed spec fn resolved(&self) -> bool {
        self.resolved
    }

    /// What the work reported, where a look before a drop has taken it out
    /// of the channel and no poll has handed it out.
    pub closed spec fn held_result(&self) -> Option<Result<T, anyhow::Error>> {
        self.held
    }

    /// Whether a look before a drop found the channel closed: the work is
    /// gone and nothing will come.
    pub closed spec fn seen_closed(&self) -> bool {
        self.closed
    }

    /// A handle for work that has yet to report, and the sending end through
    /// which that work reports, once.
    pub fn new(panic_on_drop: bool) -> (made: (
        Self,
        tokio::sync::oneshot::Sender<Result<T, anyhow::Error>>,
    ))
        ensures
            made.0.must_complete() == panic_on_drop,
            !made.0.resolved(),
            !made.0.seen_closed(),
            made.0.held_result() is None,
    {
        let (sender, receiver) = open_channel();
        (Task { receiver, panic_on_drop, resolved: false, held: None, closed: false }, sender)
    }

    pub fn panic_on_drop(&self) -> (panic_on_drop: bool)
        ensures
            panic_on_drop == self.must_complete(),
    {
        self.panic_on_drop
    }

    pub fn is_resolved(&self) -> (resolved: bool)
        ensures
            resolved == self.resolved(),
    {
        self.resolved
    }

    /// Looks once, without waiting, whether the work has reported. `Ok(None)`
    /// means not yet. Anything else resolves the task: it is the work's
    /// result or its failure, each returned once. A task that has resolved
    /// answers every later poll with `Disconnected`. What a look before a
    /// drop has found is what the poll returns: the result that the handle
    /// holds, or `Disconnected` for a channel that was seen closed.
    pub fn poll(&mut self) -> (polled: Result<Option<T>, TaskError>)
        ensures
            final(self).must_complete() == old(self).must_complete(),
            final(self).seen_closed() == old(self).seen_closed(),
            final(self).resolved() == !(polled matches Ok(None)),
            old(self).resolved() ==> polled matches Err(TaskError::Disconnected),
            old(self).resolved() ==> final(self).held_result() == old(self).held_result(),
            !old(self).resolved() ==> final(self).held_result() is None,
            !old(self).resolved() ==> match old(self).held_result() {
                Some(result) => polled == outcome_of(Received::Value(result)),
                None => old(self).seen_closed() ==> polled matches Err(TaskError::Disconnected),
            },
    {
        if self.resolved {
            return Err(TaskError::Disconnected);
        }
        let found = match self.held.take() {
            Some(result) => Received::Value(result),
            None => {
                if self.closed {
                    Received::Closed
                } else {
                    try_receive(&mut self.receiver)
                }
            },
        };
        let polled = poll_outcome(found);
        match &polled {
            Ok(None) => {},
            _ => {
                self.resolved = true;
            },
        }
        polled
    }

    /// Whether dropping the handle now would abandon work that must
    /// complete before it has completed. `unwinding` says that the thread is
    /// already panicking. A task that need not complete, or that has
    /// resolved, can always be dropped, and so can any task while the thread
    /// unwinds: for these the channel is not looked at and the handle stays
    /// as it is. Else the handle looks once at its channel, unless it knows
    /// already what is there. It keeps a result that it finds, for the next
    /// poll, and remembers a channel that it finds closed. To drop the task
    /// is fatal exactly if its work is still under way: the channel is
    /// neither closed nor has it brought a result.
    pub fn abandoning(&mut self, unwinding: bool) -> (fatal: bool)
        ensures
            final(self).must_complete() == old(self).must_complete(),
            final(self).resolved() == old(self).resolved(),
            fatal == (old(self).must_complete() && !old(self).resolved() && !unwinding && !final(self).seen_closed()
                && final(self).held_result() is None),
            old(self).seen_closed() ==> final(self).seen_closed(),
            old(self).held_result() is Some ==> final(self).held_result() == old(self).held_result(),
            !(old(self).must_complete() && !old(self).resolved() && !unwinding) ==> {
                &&& final(self).seen_closed() == old(self).seen_closed()
                &&& final(self).held_result() == old(self).held_result()
            },
            final(self).seen_closed() && !old(self).seen_closed() ==> final(self).held_result()
                == old(self).held_result(),
    {
        if !self.panic_on_drop || self.resolved || unwinding {
            return false;
        }
        if self.closed || self.held.is_some() {
            return false;
        }
        let found = try_receive(&mut self.receiver);
        let fatal = abandonment_is_fatal(self.panic_on_drop, self.resolved, &found, unwinding);
        match found {
            Received::Value(result) => {
                self.held = Some(result);
            },
            Received::Empty => {},
            Received::Closed => {
                self.closed = true;
            },
        }
        fatal
    }
}

} // verus!
