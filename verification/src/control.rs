//! The foreground side of the viewer: what follows from each signal that the
//! input loop resolves, and when the background tasks are told to stop.

use vstd::prelude::*;

verus! {

/// The outcome of resolving one input event.
#[derive(Clone, Copy, Debug, PartialEq, Eq, Structural)]
pub enum Signal {
    /// Stay in the interactive loop.
    Continue,
    /// Leave the loop and show the retained lines.
    GotoArchived,
    /// Leave the loop and start the live stream anew.
    GotoStreaming,
}

/// What the input loop does after a signal.
#[derive(Clone, Copy, Debug, PartialEq, Eq, Structural)]
pub enum ControlAction {
    /// Draw the editor pane again and wait for the next event.
    Redraw,
    /// Leave the loop without drawing and trip the cancellation token.
    Cancel,
    /// The token is tripped already: do nothing.
    Ignore,
}

impl Signal {
    /// Whether this signal ends the interactive loop.
    pub open spec fn terminates(self) -> bool {
        self == Signal::GotoArchived || self == Signal::GotoStreaming
    }

    /// Whether this signal ends the interactive loop.
    pub fn is_terminating(&self) -> (b: bool)
        ensures
            b == self.terminates(),
    {
        match self {
            Signal::Continue => false,
            Signal::GotoArchived => true,
            Signal::GotoStreaming => true,
        }
    }
}

/// The signal that ended the loop, after one more signal came in: the first
/// terminating signal stays, whatever follows it.
pub open spec fn next_exit(exit: Option<Signal>, signal: Signal) -> Option<Signal> {
    match exit {
        Some(first) => Some(first),
        None => if signal.terminates() {
            Some(signal)
        } else {
            None
        },
    }
}

/// What `signal` calls for, `exit` being the signal that ended the loop
/// before it, if one did.
pub open spec fn action_for(exit: Option<Signal>, signal: Signal) -> ControlAction {
    if exit is Some {
        ControlAction::Ignore
    } else if signal.terminates() {
        ControlAction::Cancel
    } else {
        ControlAction::Redraw
    }
}

/// The signal that ended the loop once `signals` came in, in this order;
/// none while the loop goes on.
pub open spec fn exit_after(signals: Seq<Signal>) -> Option<Signal>
    decreases signals.len(),
{
    if signals.len() == 0 {
        None
    } else {
        next_exit(exit_after(signals.drop_last()), signals.last())
    }
}

/// The number of signals among `signals` that called for `Cancel`.
pub open spec fn cancels(signals: Seq<Signal>) -> nat
    decreases signals.len(),
{
    if signals.len() == 0 {
        0
    } else {
        let before = cancels(signals.drop_last());
        if action_for(exit_after(signals.drop_last()), signals.last()) == ControlAction::Cancel {
            before + 1
        } else {
            before
        }
    }
}

/// The token is tripped at most once, whatever signals come in: once if one
/// of them terminates, and never else. The loop ends with a terminating
/// signal only, and once it has ended, later signals change nothing.
pub proof fn lemma_cancelled_once(signals: Seq<Signal>)
    ensures
        cancels(signals) == if exit_after(signals) is Some {
            1nat
        } else {
            0nat
        },
        exit_after(signals) matches Some(signal) ==> signal.terminates(),
        exit_after(signals) is Some <==> exists|i: int|
            0 <= i < signals.len() && (#[trigger] signals[i]).terminates(),
        forall|n: int|
            0 <= n <= signals.len() && exit_after(#[trigger] signals.take(n)) is Some
                ==> exit_after(signals) == exit_after(signals.take(n)),
    decreases signals.len(),
{
    if signals.len() > 0 {
        let before = signals.drop_last();
        lemma_cancelled_once(before);
        if exit_after(signals) is Some {
            if exit_after(before) is Some {
                // the witness among the earlier signals serves for all of them
                let i = choose|i: int| 0 <= i < before.len() && (#[trigger] before[i]).terminates();
                assert(signals[i].terminates());
            }
        } else {
            assert forall|i: int| 0 <= i < signals.len() implies !(
            #[trigger] signals[i]).terminates() by {
                if i < before.len() {
                    assert(signals[i] == before[i]);
                }
            }
        }
        assert forall|n: int|
            0 <= n <= signals.len() && exit_after(
                #[trigger] signals.take(n),
            ) is Some implies exit_after(signals) == exit_after(signals.take(n)) by {
            if n < signals.len() {
                assert(signals.take(n) =~= before.take(n));
            } else {
                assert(signals.take(n) =~= signals);
            }
        }
    }
}

/// The coordinator of the shutdown: it remembers the signal that ended the
/// interactive loop. From that signal on the cancellation token is tripped.
pub struct Control {
    exit: Option<Signal>,
}

impl Control {
    /// The signal that ended the loop, if one did.
    pub closed spec fn exit(&self) -> Option<Signal> {
        self.exit
    }

    /// The coordinator at the start: the loop runs, the token is not tripped.
    pub fn new() -> (control: Self)
        ensures
            control.exit() is None,
    {
        Control { exit: None }
    }

    /// Takes the signal that the input loop resolved and says what follows.
    /// The first terminating signal is remembered and calls for `Cancel`;
    /// before it every signal calls for `Redraw`, after it none has effect.
    pub fn on_signal(&mut self, signal: Signal) -> (action: ControlAction)
        ensures
            final(self).exit() == next_exit(old(self).exit(), signal),
            action == action_for(old(self).exit(), signal),
    {
        match self.exit {
            Some(_) => ControlAction::Ignore,
            None => {
                if signal.is_terminating() {
                    self.exit = Some(signal);
                    ControlAction::Cancel
                } else {
                    ControlAction::Redraw
                }
            },
        }
    }

    /// Whether the cancellation token is tripped.
    pub fn is_cancelled(&self) -> (b: bool)
        ensures
            b == self.exit() is Some,
    {
        self.exit.is_some()
    }

    /// The signal that ended the loop, if one did.
    pub fn exit_signal(&self) -> (signal: Option<Signal>)
        ensures
            signal == self.exit(),
    {
        self.exit
    }
}

} // verus!
