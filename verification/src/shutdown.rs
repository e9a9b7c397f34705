//! Leaving the application: the question that is asked, and what its answer
//! leads to.

use vstd::prelude::*;

use crate::logs;
use crate::logs::LogBook;
use crate::text;
use crate::workspace::DEFAULT_WORKSPACE_ID;

verus! {

/// How far leaving the application has come.
pub struct CloseGate {
    /// The question is being asked.
    pub close_prompt_open: bool,
    /// The answer was yes, and the services are being stopped.
    pub shutdown_requested: bool,
}

/// What follows from the answer.
pub enum CloseDecision {
    /// The application goes on.
    Stay,
    /// The services are stopped, before the application ends.
    StopServices,
}

/// The question has to be asked: it is not open, and the answer was not yes.
pub open spec fn asks(gate: CloseGate) -> bool {
    !gate.shutdown_requested && !gate.close_prompt_open
}

/// The state after a window was to be closed.
pub open spec fn asked(gate: CloseGate) -> CloseGate {
    if asks(gate) {
        CloseGate { close_prompt_open: true, ..gate }
    } else {
        gate
    }
}

/// The state after an answer.
pub open spec fn answered(gate: CloseGate, confirmed: bool) -> CloseGate {
    CloseGate {
        close_prompt_open: false,
        shutdown_requested: gate.shutdown_requested || confirmed,
    }
}

/// The state after the services were stopped, or could not be.
pub open spec fn settled(gate: CloseGate, stopped: bool) -> CloseGate {
    CloseGate { shutdown_requested: stopped && gate.shutdown_requested, ..gate }
}

impl CloseGate {
    /// Nothing was asked yet.
    pub fn new() -> (gate: Self)
        ensures
            !gate.close_prompt_open,
            !gate.shutdown_requested,
    {
        CloseGate { close_prompt_open: false, shutdown_requested: false }
    }

    /// A window is to be closed. The flag tells whether the question has to be
    /// asked: it is asked once, and no more when the answer was yes.
    pub fn request_close(&mut self) -> (ask: bool)
        ensures
            ask == asks(*old(self)),
            *final(self) == asked(*old(self)),
    {
        if self.shutdown_requested || self.close_prompt_open {
            return false;
        }
        self.close_prompt_open = true;
        true
    }

    /// The question was answered.
    pub fn answer(&mut self, confirmed: bool) -> (decision: CloseDecision)
        ensures
            *final(self) == answered(*old(self), confirmed),
            decision == if confirmed {
                CloseDecision::StopServices
            } else {
                CloseDecision::Stay
            },
    {
        self.close_prompt_open = false;
        if !confirmed {
            return CloseDecision::Stay;
        }
        self.shutdown_requested = true;
        CloseDecision::StopServices
    }

    /// The services were stopped, or could not be. The flag tells whether the
    /// application ends; where it does not, the failure is logged and the
    /// question can be asked again.
    pub fn services_stopped(
        &mut self,
        failure: Option<&str>,
        book: &mut LogBook,
        now: u64,
    ) -> (exit: bool)
        requires
            old(book).wf(),
        ensures
            final(book).wf(),
            exit == (failure is None),
            *final(self) == settled(*old(self), exit),
            final(book)@ == match failure {
                Some(error) => logs::appended(
                    old(book)@,
                    DEFAULT_WORKSPACE_ID@,
                    "退出前停止服务失败："@ + error@,
                    now,
                ),
                None => old(book)@,
            },
    {
        match failure {
            Some(error) => {
                self.shutdown_requested = false;
                book.append_log(
                    DEFAULT_WORKSPACE_ID,
                    text::joined("退出前停止服务失败：", error),
                    now,
                );
                false
            },
            None => true,
        }
    }
}

/// The question is asked where it is not open and was not answered with yes. It
/// is open once it is asked, and closed by any answer. Only a yes leads to the
/// shutdown, which goes on where the services were stopped and ends where they
/// could not be.
pub proof fn law_shutdown_follows_a_yes(gate: CloseGate, confirmed: bool, stopped: bool)
    ensures
        asks(gate) <==> !gate.close_prompt_open && !gate.shutdown_requested,
        asked(gate).close_prompt_open == (gate.close_prompt_open || !gate.shutdown_requested),
        asked(gate).shutdown_requested == gate.shutdown_requested,
        !answered(gate, confirmed).close_prompt_open,
        answered(gate, confirmed).shutdown_requested <==> confirmed || gate.shutdown_requested,
        settled(gate, stopped).close_prompt_open == gate.close_prompt_open,
        settled(gate, true).shutdown_requested == gate.shutdown_requested,
        !settled(gate, false).shutdown_requested,
{
}

/// The question cancelled leaves everything as it was, so that it can be asked
/// again.
pub proof fn law_cancelled_shutdown_changes_nothing(gate: CloseGate)
    requires
        asks(gate),
    ensures
        answered(asked(gate), false) == gate,
{
}

/// The question is not asked while it is open, nor after a yes, and again after
/// a yes that failed.
pub proof fn law_question_is_asked_once(gate: CloseGate)
    requires
        asks(gate),
    ensures
        !asks(asked(gate)),
        !asks(answered(asked(gate), true)),
        !asks(settled(answered(asked(gate), true), true)),
        asks(settled(answered(asked(gate), true), false)),
{
}

} // verus!
