//! Sending a keyboard report to the host, as a state machine: the
//! application performs each command and feeds back what the USB stack said.

use vstd::prelude::*;

verus! {

#[derive(Debug, Clone, Copy, PartialEq, Eq, Structural)]
pub enum SendState {
    /// The report was just handed to the keyboard class.
    SettingReport,
    /// Waiting for the device state.
    CheckingDevice,
    /// Writing the report to the endpoint.
    Writing,
    /// Nothing more to do for this report.
    Done,
}

/// What the USB stack answered to the last command.
#[derive(Debug, Clone, Copy, PartialEq, Eq, Structural)]
pub enum Feedback {
    /// The keyboard class took the report; `true` if it differs from the
    /// last one.
    ReportSet(bool),
    /// `true` if the device is in the `Configured` state.
    DeviceState(bool),
    /// The endpoint write succeeded with this many bytes.
    Wrote(usize),
    /// The endpoint write failed.
    WriteFailed,
}

#[derive(Debug, Clone, Copy, PartialEq, Eq, Structural)]
pub enum Command {
    /// Read the USB device state.
    QueryDevice,
    /// Write the report bytes to the endpoint.
    WriteReport,
    /// Stop handling this report.
    Finish,
}

/// The state that sending starts in, after the report was handed over.
pub open spec fn start_state() -> SendState {
    SendState::SettingReport
}

pub open spec fn step(state: SendState, fb: Feedback) -> (SendState, Command) {
    match (state, fb) {
        (SendState::SettingReport, Feedback::ReportSet(true)) => (
            SendState::CheckingDevice,
            Command::QueryDevice,
        ),
        (SendState::CheckingDevice, Feedback::DeviceState(true)) => (
            SendState::Writing,
            Command::WriteReport,
        ),
        (SendState::Writing, Feedback::Wrote(0)) => (SendState::Writing, Command::WriteReport),
        _ => (SendState::Done, Command::Finish),
    }
}

/// The next state and command: an unchanged report, or a device that is
/// not configured, ends the sending; a write is repeated while it writes
/// nothing, and ends on any other outcome.
pub fn send_step(state: SendState, fb: Feedback) -> (r: (SendState, Command))
    ensures
        r == step(state, fb),
{
    match (state, fb) {
        (SendState::SettingReport, Feedback::ReportSet(true)) => (
            SendState::CheckingDevice,
            Command::QueryDevice,
        ),
        (SendState::CheckingDevice, Feedback::DeviceState(true)) => (
            SendState::Writing,
            Command::WriteReport,
        ),
        (SendState::Writing, Feedback::Wrote(0)) => (SendState::Writing, Command::WriteReport),
        _ => (SendState::Done, Command::Finish),
    }
}

/// The commands issued for a sequence of answers, from `state` on.
pub open spec fn run(state: SendState, fbs: Seq<Feedback>) -> Seq<Command>
    decreases fbs.len(),
{
    if fbs.len() == 0 {
        Seq::empty()
    } else {
        let (next, cmd) = step(state, fbs[0]);
        seq![cmd] + run(next, fbs.drop_first())
    }
}

/// The state reached after a sequence of answers.
pub open spec fn run_state(state: SendState, fbs: Seq<Feedback>) -> SendState
    decreases fbs.len(),
{
    if fbs.len() == 0 {
        state
    } else {
        run_state(step(state, fbs[0]).0, fbs.drop_first())
    }
}

pub proof fn lemma_run_len(state: SendState, fbs: Seq<Feedback>)
    ensures
        run(state, fbs).len() == fbs.len(),
    decreases fbs.len(),
{
    if fbs.len() > 0 {
        lemma_run_len(step(state, fbs[0]).0, fbs.drop_first());
    }
}

/// Once done, sending stays done and only finishes.
pub proof fn lemma_done_absorbs(fbs: Seq<Feedback>)
    ensures
        run_state(SendState::Done, fbs) == SendState::Done,
        forall|k: int| 0 <= k < fbs.len() ==> #[trigger] run(SendState::Done, fbs)[k] == Command::Finish,
    decreases fbs.len(),
{
    lemma_run_len(SendState::Done, fbs);
    if fbs.len() > 0 {
        lemma_done_absorbs(fbs.drop_first());
        assert forall|k: int| 0 <= k < fbs.len() implies #[trigger] run(SendState::Done, fbs)[k]
            == Command::Finish by {
            if k > 0 {
                assert(run(SendState::Done, fbs)[k] == run(SendState::Done, fbs.drop_first())[k - 1]);
            }
        }
    }
}

/// While writing, the report is written again exactly as long as every
/// write wrote nothing.
pub proof fn lemma_writing_repeats(fbs: Seq<Feedback>, k: int)
    requires
        0 <= k < fbs.len(),
        forall|m: int| 0 <= m < k ==> #[trigger] fbs[m] == Feedback::Wrote(0),
    ensures
        run(SendState::Writing, fbs)[k] == (if fbs[k] == Feedback::Wrote(0) {
            Command::WriteReport
        } else {
            Command::Finish
        }),
    decreases k,
{
    lemma_run_len(SendState::Writing, fbs);
    if k > 0 {
        let rest = fbs.drop_first();
        assert forall|m: int| 0 <= m < k - 1 implies #[trigger] rest[m] == Feedback::Wrote(0) by {
            assert(rest[m] == fbs[m + 1]);
        }
        lemma_writing_repeats(rest, k - 1);
        assert(fbs[0] == Feedback::Wrote(0));
    }
}

/// A command issued from the writing state: a write follows only a write
/// that wrote nothing, and any command after a finish is a finish.
proof fn lemma_writes_need_empty_writes(state: SendState, fbs: Seq<Feedback>, k: int)
    requires
        state == SendState::Writing || state == SendState::Done,
        0 <= k < fbs.len(),
        run(state, fbs)[k] == Command::WriteReport,
    ensures
        state == SendState::Writing,
        forall|m: int| 0 <= m <= k ==> #[trigger] fbs[m] == Feedback::Wrote(0),
    decreases k,
{
    lemma_run_len(state, fbs);
    if state == SendState::Done {
        lemma_done_absorbs(fbs);
    } else {
        let (next, cmd) = step(state, fbs[0]);
        if k == 0 {
            assert(run(state, fbs)[0] == cmd);
        } else {
            assert(run(state, fbs)[k] == run(next, fbs.drop_first())[k - 1]);
            lemma_writes_need_empty_writes(next, fbs.drop_first(), k - 1);
            assert forall|m: int| 0 <= m <= k implies #[trigger] fbs[m] == Feedback::Wrote(0) by {
                if m > 0 {
                    assert(fbs[m] == fbs.drop_first()[m - 1]);
                }
            }
        }
    }
}

/// A report is written to the host only after the keyboard class said that
/// it changed and the device said that it is configured, and only while
/// every earlier write wrote nothing.
pub proof fn lemma_write_only_when_changed_and_configured(fbs: Seq<Feedback>, k: int)
    requires
        0 <= k < fbs.len(),
        run(start_state(), fbs)[k] == Command::WriteReport,
    ensures
        k >= 1,
        fbs[0] == Feedback::ReportSet(true),
        fbs[1] == Feedback::DeviceState(true),
        forall|m: int| 2 <= m < k ==> #[trigger] fbs[m] == Feedback::Wrote(0),
{
    lemma_run_len(start_state(), fbs);
    let s1 = step(start_state(), fbs[0]).0;
    let r1 = fbs.drop_first();
    assert(run(start_state(), fbs)[0] == step(start_state(), fbs[0]).1);
    if fbs[0] != Feedback::ReportSet(true) {
        assert(s1 == SendState::Done);
        lemma_done_absorbs(r1);
        assert(run(start_state(), fbs)[k] == run(s1, r1)[k - 1]);
        assert(false);
    }
    assert(s1 == SendState::CheckingDevice);
    assert(run(start_state(), fbs)[k] == run(s1, r1)[k - 1]);
    lemma_run_len(s1, r1);
    let s2 = step(s1, r1[0]).0;
    let r2 = r1.drop_first();
    assert(run(s1, r1)[0] == step(s1, r1[0]).1);
    if r1[0] != Feedback::DeviceState(true) {
        assert(s2 == SendState::Done);
        lemma_done_absorbs(r2);
        assert(run(s1, r1)[k - 1] == run(s2, r2)[k - 2]);
        assert(false);
    }
    assert(s2 == SendState::Writing);
    if k >= 2 {
        assert(run(s1, r1)[k - 1] == run(s2, r2)[k - 2]);
        lemma_writes_need_empty_writes(s2, r2, k - 2);
        assert forall|m: int| 2 <= m < k implies #[trigger] fbs[m] == Feedback::Wrote(0) by {
            assert(fbs[m] == r2[m - 2]);
        }
    }
}

} // verus!
