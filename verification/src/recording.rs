//! The recorder's decisions: how controls move the shared timeline, how the
//! worker's phase answers commands, when it starts, and which output slot it
//! encodes next from which acquisition time.
use crate::model::{timeline_begin, timeline_elapsed, timeline_instant_at, timeline_pause,
    timeline_resume, Phase, RecordingClock, NANOS_PER_SECOND};
use vstd::prelude::*;

verus! {

#[verifier::external_type_specification]
#[verifier::external_body]
pub struct ExPathBuf(std::path::PathBuf);

/// Controls sent from the UI to the recording worker.
#[derive(Debug, Clone, Copy, PartialEq, Eq, Structural)]
pub enum Command {
    Begin,
    Pause,
    Resume,
    Stop,
    Discard,
}

/// Reports from the recording worker to the UI.
#[derive(Debug)]
pub enum Event {
    Ready,
    Started,
    Paused,
    Resumed,
    Finalizing,
    Saved(std::path::PathBuf),
    Discarded,
    Failed(String),
}

/// The timeline after a control issued at `now`.
pub open spec fn timeline_after(
    ivs: Seq<crate::model::ActiveInterval>,
    command: Command,
    now: u64,
) -> Seq<crate::model::ActiveInterval> {
    match command {
        Command::Begin => timeline_begin(ivs, now),
        Command::Resume => timeline_resume(ivs, now),
        _ => timeline_pause(ivs, now),
    }
}

/// Timestamps a control on the UI thread, so an encoder stall cannot move a
/// pause or stop boundary in either the audio or the video timeline: Begin
/// begins, Resume resumes, Pause, Stop and Discard pause.
pub fn apply_command(clock: &mut RecordingClock, command: Command, now: u64)
    ensures
        final(clock)@ == timeline_after(old(clock)@, command, now),
{
    match command {
        Command::Begin => clock.begin(now),
        Command::Pause | Command::Stop | Command::Discard => clock.pause(now),
        Command::Resume => clock.resume(now),
    }
}

/// The worker's phase, discard flag and report after one command.
pub open spec fn phase_after(phase: Phase, discard: bool, command: Command) -> (Phase, bool, Option<
    Command,
>) {
    match command {
        Command::Pause => if phase == Phase::Recording {
            (Phase::Paused, discard, Some(Command::Pause))
        } else {
            (phase, discard, None)
        },
        Command::Resume => if phase == Phase::Paused {
            (Phase::Recording, discard, Some(Command::Resume))
        } else {
            (phase, discard, None)
        },
        Command::Stop => (Phase::Stopping, discard, None),
        Command::Discard => (Phase::Stopping, true, None),
        Command::Begin => (phase, discard, None),
    }
}

/// Answers one command in the recording loop: pause only while recording
/// (reported as `Paused`), resume only while paused (reported as `Resumed`),
/// stop, or stop and discard. Returns the new phase, the discard flag and the
/// event to report, if any.
pub fn on_command(phase: Phase, discard: bool, command: Command) -> (r: (Phase, bool, Option<Event>))
    ensures
        ({
            let (p, d, e) = phase_after(phase, discard, command);
            &&& r.0 == p
            &&& r.1 == d
            &&& match e {
                Some(Command::Pause) => r.2 matches Some(Event::Paused),
                Some(_) => r.2 matches Some(Event::Resumed),
                None => r.2 is None,
            }
        }),
{
    match command {
        Command::Pause => if phase == Phase::Recording {
            (Phase::Paused, discard, Some(Event::Paused))
        } else {
            (phase, discard, None)
        },
        Command::Resume => if phase == Phase::Paused {
            (Phase::Recording, discard, Some(Event::Resumed))
        } else {
            (phase, discard, None)
        },
        Command::Stop => (Phase::Stopping, discard, None),
        Command::Discard => (Phase::Stopping, true, None),
        Command::Begin => (phase, discard, None),
    }
}

/// What the worker received while waiting for a control.
#[derive(Debug, Clone, Copy, PartialEq, Eq, Structural)]
pub enum Received {
    Command(Command),
    /// Nothing arrived in time.
    Nothing,
    /// The UI side is gone.
    Disconnected,
}

/// After the countdown: `Some(true)` begins, `Some(false)` abandons the take
/// (stop, discard or a vanished UI), `None` keeps waiting.
pub fn begin_decision(received: Received) -> (r: Option<bool>)
    ensures
        r == match received {
            Received::Command(Command::Begin) => Some(true),
            Received::Command(Command::Stop) | Received::Command(Command::Discard)
            | Received::Disconnected => Some(false),
            _ => None::<bool>,
        },
{
    match received {
        Received::Command(Command::Begin) => Some(true),
        Received::Command(Command::Stop) | Received::Command(Command::Discard)
        | Received::Disconnected => Some(false),
        _ => None,
    }
}

/// How long the worker waits for the first source frame, in nanoseconds.
pub const FIRST_FRAME_TIMEOUT: u64 = 15_000_000_000;

/// Poll interval while waiting for the first source frame, in nanoseconds.
pub const FIRST_FRAME_POLL: u64 = 20_000_000;

/// Next move while the source warms up.
#[derive(Debug, Clone, Copy, PartialEq, Eq, Structural)]
pub enum Preparation {
    /// The take was stopped or discarded before it started.
    Discard,
    /// No source frame arrived in time.
    NoFrames,
    /// Poll again after this many nanoseconds.
    Wait(u64),
}

/// While no source frame has arrived: stop, discard or a vanished UI
/// abandons the take; after the timeout the take fails; otherwise poll.
pub fn preparation_step(received: Received, waited: u64) -> (r: Preparation)
    ensures
        r == match received {
            Received::Command(Command::Stop) | Received::Command(Command::Discard)
            | Received::Disconnected => Preparation::Discard,
            _ => if waited >= FIRST_FRAME_TIMEOUT {
                Preparation::NoFrames
            } else {
                Preparation::Wait(FIRST_FRAME_POLL)
            },
        },
{
    match received {
        Received::Command(Command::Stop) | Received::Command(Command::Discard)
        | Received::Disconnected => Preparation::Discard,
        _ => if waited >= FIRST_FRAME_TIMEOUT {
            Preparation::NoFrames
        } else {
            Preparation::Wait(FIRST_FRAME_POLL)
        },
    }
}

/// Output-only delivery allowance: a slot is encoded only this long after
/// its acquisition time, so late callbacks are handled identically at every
/// boundary (nanoseconds).
pub const DELIVERY_BUDGET: u64 = 100_000_000;

/// Polling interval of the recording loop, in nanoseconds.
pub const POLL: u64 = 2_000_000;

/// How far encoding may fall behind before the take stops, in nanoseconds.
pub const MAX_LAG: u64 = 2_000_000_000;

/// How stale a camera frame may be and still be composited, in nanoseconds.
pub const CAMERA_FRESHNESS: u64 = 250_000_000;

/// Next move of the recording loop.
#[derive(Debug, Clone, Copy, PartialEq, Eq, Structural)]
pub enum Step {
    /// Nothing to encode yet; poll again after this many nanoseconds.
    Wait(u64),
    /// Every due slot is written and the take is stopping.
    Finish,
    /// Encode the next slot from frames acquired at or before `target`.
    Encode { target: u64, lag: u64 },
    /// Encoding fell too far behind; stop to preserve synchronization.
    Overloaded,
}

/// Output slots due after `elapsed` nanoseconds of active time at `fps`.
pub open spec fn due_frames(elapsed: u64, fps: u32) -> int {
    (elapsed * fps + NANOS_PER_SECOND - 1) / (NANOS_PER_SECOND as int)
}

/// Output time of slot `index` at `fps`, in nanoseconds.
pub open spec fn slot_position(index: u64, fps: u32) -> int {
    index * NANOS_PER_SECOND / (fps as int)
}

/// The loop's next move at host time `now` with `written` slots encoded.
pub open spec fn schedule(
    ivs: Seq<crate::model::ActiveInterval>,
    stopping: bool,
    written: u64,
    fps: u32,
    now: u64,
) -> Step {
    let elapsed = timeline_elapsed(ivs, now);
    let due = due_frames(elapsed, fps);
    if written >= (if due >= 1 {
        due
    } else {
        1
    }) {
        if stopping {
            Step::Finish
        } else {
            Step::Wait(POLL)
        }
    } else {
        let position = slot_position(written, fps);
        match timeline_instant_at(ivs, position as u64) {
            None => if stopping {
                Step::Finish
            } else {
                Step::Wait(POLL)
            },
            Some(target) => if now < target + DELIVERY_BUDGET {
                let wait = target + DELIVERY_BUDGET - now;
                Step::Wait(
                    if wait < POLL {
                        wait as u64
                    } else {
                        POLL
                    },
                )
            } else {
                let lag = if elapsed >= position {
                    elapsed - position
                } else {
                    0
                };
                if lag >= MAX_LAG {
                    Step::Overloaded
                } else {
                    Step::Encode { target, lag: lag as u64 }
                }
            },
        }
    }
}

/// Decides the recording loop's next move at host time `now`, with
/// `written` slots already encoded at `fps` and `stopping` once a stop was
/// requested.
pub fn next_step(clock: &RecordingClock, stopping: bool, written: u64, fps: u32, now: u64) -> (r:
    Step)
    requires
        fps > 0,
    ensures
        r == schedule(clock@, stopping, written, fps, now),
{
    let elapsed = clock.elapsed(now);
    assert(elapsed * fps + (NANOS_PER_SECOND - 1) <= u128::MAX) by (nonlinear_arith)
        requires
            elapsed <= u64::MAX,
            fps <= u32::MAX,
    ;
    let due: u128 = (elapsed as u128 * fps as u128 + (NANOS_PER_SECOND - 1) as u128)
        / NANOS_PER_SECOND as u128;
    let floor: u128 = if due >= 1 {
        due
    } else {
        1
    };
    if written as u128 >= floor {
        return if stopping {
            Step::Finish
        } else {
            Step::Wait(POLL)
        };
    }
    // written < due <= elapsed * fps / 1e9 + 1, so the position fits 64 bits.
    assert(due == (elapsed * fps + NANOS_PER_SECOND - 1) / (NANOS_PER_SECOND as int));
    assert(written * NANOS_PER_SECOND / (fps as int) <= u64::MAX) by (nonlinear_arith)
        requires
            written == 0 || written < (elapsed * fps + NANOS_PER_SECOND - 1) / (
            NANOS_PER_SECOND as int),
            fps > 0,
            elapsed <= u64::MAX,
    {
        if written > 0 {
            assert(written * NANOS_PER_SECOND < elapsed * fps + NANOS_PER_SECOND);
            assert(written * NANOS_PER_SECOND / (fps as int) <= (elapsed * fps + NANOS_PER_SECOND)
                / (fps as int));
        }
    }
    let position = (written as u128 * NANOS_PER_SECOND as u128 / fps as u128) as u64;
    match clock.instant_at(position) {
        None => if stopping {
            Step::Finish
        } else {
            Step::Wait(POLL)
        },
        Some(target) => {
            let deadline: u128 = target as u128 + DELIVERY_BUDGET as u128;
            if (now as u128) < deadline {
                let wait: u128 = deadline - now as u128;
                Step::Wait(
                    if wait < POLL as u128 {
                        wait as u64
                    } else {
                        POLL
                    },
                )
            } else {
                let lag: u64 = elapsed.saturating_sub(position);
                if lag >= MAX_LAG {
                    Step::Overloaded
                } else {
                    Step::Encode { target, lag }
                }
            }
        },
    }
}

/// A camera frame acquired at `captured` may be composited into the slot at
/// `target`: it is at most [`CAMERA_FRESHNESS`] old.
pub fn camera_is_fresh(target: u64, captured: u64) -> (r: bool)
    ensures
        r == (crate::model::sat_sub(target, captured) <= CAMERA_FRESHNESS),
{
    target.saturating_sub(captured) <= CAMERA_FRESHNESS
}

/// A slot is encoded only once its delivery deadline has passed, from the
/// host time the timeline assigns to it, while fewer slots than are due have
/// been written, and never with a lag of two seconds or more.
pub proof fn lemma_encoded_slots_wait_for_delivery(
    ivs: Seq<crate::model::ActiveInterval>,
    stopping: bool,
    written: u64,
    fps: u32,
    now: u64,
)
    requires
        fps > 0,
    ensures
        schedule(ivs, stopping, written, fps, now) matches Step::Encode { target, lag } ==> {
            &&& now >= target + DELIVERY_BUDGET
            &&& timeline_instant_at(ivs, slot_position(written, fps) as u64) == Some(target)
            &&& (written < due_frames(timeline_elapsed(ivs, now), fps) || written == 0)
            &&& lag < MAX_LAG
        },
        schedule(ivs, stopping, written, fps, now) is Finish ==> stopping,
{
}

} // verus!

verus! {

/// What the UI does besides changing its phase when the worker reports.
#[derive(Debug, Clone, Copy, PartialEq, Eq, Structural)]
pub enum Reaction {
    Nothing,
    /// The source is ready: show the countdown.
    ShowCountdown,
    /// The take is over (saved, discarded or failed): forget it.
    Complete,
}

/// The UI's phase and reaction after a worker event: the countdown shows
/// only while starting, `Started` turns a start into recording, pauses and
/// resumes follow the worker, finalizing means stopping, and a saved,
/// discarded or failed take returns to idle.
pub open spec fn ui_after_event(phase: Phase, event: Event) -> (Phase, Reaction) {
    match event {
        Event::Ready => if phase == Phase::Starting {
            (phase, Reaction::ShowCountdown)
        } else {
            (phase, Reaction::Nothing)
        },
        Event::Started => if phase == Phase::Starting {
            (Phase::Recording, Reaction::Nothing)
        } else {
            (phase, Reaction::Nothing)
        },
        Event::Paused => (Phase::Paused, Reaction::Nothing),
        Event::Resumed => (Phase::Recording, Reaction::Nothing),
        Event::Finalizing => (Phase::Stopping, Reaction::Nothing),
        _ => (Phase::Idle, Reaction::Complete),
    }
}

/// Answers one worker event on the UI side.
pub fn on_event(phase: Phase, event: &Event) -> (r: (Phase, Reaction))
    ensures
        r == ui_after_event(phase, *event),
{
    match event {
        Event::Ready => if phase == Phase::Starting {
            (phase, Reaction::ShowCountdown)
        } else {
            (phase, Reaction::Nothing)
        },
        Event::Started => if phase == Phase::Starting {
            (Phase::Recording, Reaction::Nothing)
        } else {
            (phase, Reaction::Nothing)
        },
        Event::Paused => (Phase::Paused, Reaction::Nothing),
        Event::Resumed => (Phase::Recording, Reaction::Nothing),
        Event::Finalizing => (Phase::Stopping, Reaction::Nothing),
        _ => (Phase::Idle, Reaction::Complete),
    }
}

/// The control the pause button sends: pause while recording, resume while
/// paused, nothing otherwise.
pub fn pause_toggle(phase: Phase) -> (r: Option<Command>)
    ensures
        r == match phase {
            Phase::Recording => Some(Command::Pause),
            Phase::Paused => Some(Command::Resume),
            _ => None::<Command>,
        },
{
    match phase {
        Phase::Recording => Some(Command::Pause),
        Phase::Paused => Some(Command::Resume),
        _ => None,
    }
}

/// How a request to quit is answered.
#[derive(Debug, Clone, Copy, PartialEq, Eq, Structural)]
pub enum QuitAction {
    /// Stop the starting take, then quit once it is gone.
    StopThenQuit,
    /// The take is already stopping: quit once it is saved.
    QuitWhenStopped,
    /// A take is running: ask before losing it.
    Confirm,
    /// Nothing is recording: close now.
    Close,
}

/// Answers a request to quit in `phase`.
pub fn quit_action(phase: Phase) -> (r: QuitAction)
    ensures
        r == match phase {
            Phase::Starting => QuitAction::StopThenQuit,
            Phase::Stopping => QuitAction::QuitWhenStopped,
            Phase::Recording | Phase::Paused => QuitAction::Confirm,
            Phase::Idle => QuitAction::Close,
        },
{
    match phase {
        Phase::Starting => QuitAction::StopThenQuit,
        Phase::Stopping => QuitAction::QuitWhenStopped,
        Phase::Recording | Phase::Paused => QuitAction::Confirm,
        Phase::Idle => QuitAction::Close,
    }
}

} // verus!

verus! {

/// Whether the held screen frame may fill the slot at `target`: a desktop
/// frame acquired after the slot is never pulled into it (media frames are
/// selected by output time and always fit).
pub fn screen_frame_usable(desktop: bool, captured_at: u64, target: u64) -> (r: bool)
    ensures
        r == (!desktop || captured_at <= target),
{
    !desktop || captured_at <= target
}

} // verus!

verus! {

/// The worker's phase, discard flag and reports after a sequence of commands.
pub open spec fn after_commands(phase: Phase, discard: bool, commands: Seq<Command>) -> (
    Phase,
    bool,
    Seq<Command>,
)
    decreases commands.len(),
{
    if commands.len() == 0 {
        (phase, discard, seq![])
    } else {
        let (p, d, reports) = after_commands(phase, discard, commands.drop_last());
        let (p2, d2, e) = phase_after(p, d, commands.last());
        (
            p2,
            d2,
            match e {
                Some(c) => reports.push(c),
                None => reports,
            },
        )
    }
}

/// Within a take, the worker reports pauses and resumes alternately,
/// starting with a pause: `Paused` and `Resumed` events alternate. While
/// recording an even number of them were reported, while paused an odd one,
/// and once stopping the phase stays stopping.
pub proof fn lemma_pause_reports_alternate(discard: bool, commands: Seq<Command>)
    ensures
        ({
            let (p, _, reports) = after_commands(Phase::Recording, discard, commands);
            &&& p is Recording || p is Paused || p is Stopping
            &&& forall|i: int|
                0 <= i < reports.len() ==> #[trigger] reports[i] == (if i % 2 == 0 {
                    Command::Pause
                } else {
                    Command::Resume
                })
            &&& p is Recording ==> reports.len() % 2 == 0
            &&& p is Paused ==> reports.len() % 2 == 1
        }),
    decreases commands.len(),
{
    if commands.len() > 0 {
        lemma_pause_reports_alternate(discard, commands.drop_last());
        let (p, d, reports) = after_commands(Phase::Recording, discard, commands.drop_last());
        let (p2, d2, e) = phase_after(p, d, commands.last());
        if let Some(c) = e {
            let r2 = reports.push(c);
            assert forall|i: int| 0 <= i < r2.len() implies #[trigger] r2[i] == (if i % 2 == 0 {
                Command::Pause
            } else {
                Command::Resume
            }) by {
                if i < reports.len() {
                    assert(r2[i] == reports[i]);
                }
            }
        }
    }
}

/// Once stopping, no command changes the phase or brings a report.
pub proof fn lemma_stopping_is_final(discard: bool, commands: Seq<Command>)
    ensures
        after_commands(Phase::Stopping, discard, commands).0 == Phase::Stopping,
        after_commands(Phase::Stopping, discard, commands).2.len() == 0,
    decreases commands.len(),
{
    if commands.len() > 0 {
        lemma_stopping_is_final(discard, commands.drop_last());
    }
}

/// Where the worker stands in one take.
#[derive(Debug, Clone, Copy, PartialEq, Eq, Structural)]
pub enum Take {
    /// Opening the encoder and the source.
    Opening,
    /// Ready; waiting for the countdown to end.
    Waiting,
    /// Recording, with the worker's phase and discard flag.
    Running(Phase, bool),
    /// Writing the movie.
    Finalizing,
    /// Saved, discarded or failed.
    Over,
}

/// What the worker observed during a take.
#[derive(Debug, Clone, Copy, PartialEq, Eq, Structural)]
pub enum TakeInput {
    /// The encoder and the source are open and the first frame was read.
    Opened,
    /// What arrived while waiting for the countdown to end.
    Received(Received),
    /// A control arrived while recording.
    Command(Command),
    /// The recording loop ended: the take was stopped or discarded.
    LoopEnded,
    /// The movie was written.
    Finalized,
    /// Something failed.
    Failed,
}

/// What the worker reports of a take; the event sent for `Saved` carries
/// the movie's path, the one for `Failed` the error.
#[derive(Debug, Clone, Copy, PartialEq, Eq, Structural)]
pub enum Report {
    Ready,
    Started,
    Paused,
    Resumed,
    Finalizing,
    Saved,
    Discarded,
    Failed,
}

/// The take's stage and report after one observation: opening ends with
/// `Ready`; Begin starts (`Started`), Stop, Discard or a vanished UI abandon
/// the take (`Discarded`); controls while recording are answered as
/// `on_command` answers them; the end of the recording loop discards or
/// finalizes; a written movie is `Saved`; any failure ends the take with
/// `Failed`. After the take is over nothing changes.
pub open spec fn take_after(take: Take, input: TakeInput) -> (Take, Option<Report>) {
    if take is Over {
        (Take::Over, None)
    } else if input is Failed {
        (Take::Over, Some(Report::Failed))
    } else {
        match (take, input) {
            (Take::Opening, TakeInput::Opened) => (Take::Waiting, Some(Report::Ready)),
            (Take::Waiting, TakeInput::Received(r)) => match r {
                Received::Command(Command::Begin) => (
                    Take::Running(Phase::Recording, false),
                    Some(Report::Started),
                ),
                Received::Command(Command::Stop) | Received::Command(Command::Discard)
                | Received::Disconnected => (Take::Over, Some(Report::Discarded)),
                _ => (Take::Waiting, None),
            },
            (Take::Running(p, d), TakeInput::Command(c)) => {
                let (p2, d2, e) = phase_after(p, d, c);
                (
                    Take::Running(p2, d2),
                    match e {
                        Some(Command::Pause) => Some(Report::Paused),
                        Some(_) => Some(Report::Resumed),
                        None => None,
                    },
                )
            },
            (Take::Running(_, d), TakeInput::LoopEnded) => if d {
                (Take::Over, Some(Report::Discarded))
            } else {
                (Take::Finalizing, Some(Report::Finalizing))
            },
            (Take::Finalizing, TakeInput::Finalized) => (Take::Over, Some(Report::Saved)),
            _ => (take, None),
        }
    }
}

/// Advances a take by one observation; returns the new stage and the
/// report to send, if any.
pub fn take_step(take: Take, input: TakeInput) -> (r: (Take, Option<Report>))
    ensures
        r == take_after(take, input),
{
    if let Take::Over = take {
        return (Take::Over, None);
    }
    if let TakeInput::Failed = input {
        return (Take::Over, Some(Report::Failed));
    }
    match (take, input) {
        (Take::Opening, TakeInput::Opened) => (Take::Waiting, Some(Report::Ready)),
        (Take::Waiting, TakeInput::Received(r)) => match begin_decision(r) {
            Some(true) => (Take::Running(Phase::Recording, false), Some(Report::Started)),
            Some(false) => (Take::Over, Some(Report::Discarded)),
            None => (Take::Waiting, None),
        },
        (Take::Running(p, d), TakeInput::Command(c)) => {
            let (p2, d2, e) = on_command(p, d, c);
            let report = match e {
                Some(Event::Paused) => Some(Report::Paused),
                Some(_) => Some(Report::Resumed),
                None => None,
            };
            (Take::Running(p2, d2), report)
        },
        (Take::Running(_, d), TakeInput::LoopEnded) => if d {
            (Take::Over, Some(Report::Discarded))
        } else {
            (Take::Finalizing, Some(Report::Finalizing))
        },
        (Take::Finalizing, TakeInput::Finalized) => (Take::Over, Some(Report::Saved)),
        _ => (take, None),
    }
}

/// The stage reached and the reports sent after a sequence of observations.
pub open spec fn take_run(inputs: Seq<TakeInput>) -> (Take, Seq<Report>)
    decreases inputs.len(),
{
    if inputs.len() == 0 {
        (Take::Opening, seq![])
    } else {
        let (t, reports) = take_run(inputs.drop_last());
        let (t2, e) = take_after(t, inputs.last());
        (
            t2,
            match e {
                Some(r) => reports.push(r),
                None => reports,
            },
        )
    }
}

/// `n` pause and resume reports, alternating and starting with a pause.
pub open spec fn alternating(n: nat) -> Seq<Report> {
    Seq::new(n, |i: int| if i % 2 == 0 { Report::Paused } else { Report::Resumed })
}

/// The reports of a take that has reached `take` and is not over: nothing
/// while opening, `Ready` while waiting, then `Started` and alternating
/// pauses and resumes (an even number while recording, an odd one while
/// paused), then `Finalizing`.
pub open spec fn open_log(take: Take, reports: Seq<Report>) -> bool {
    match take {
        Take::Opening => reports.len() == 0,
        Take::Waiting => reports == seq![Report::Ready],
        Take::Running(p, _) => exists|n: nat|
            {
                &&& reports == seq![Report::Ready, Report::Started] + #[trigger] alternating(n)
                &&& p is Recording || p is Paused || p is Stopping
                &&& p is Recording ==> n % 2 == 0
                &&& p is Paused ==> n % 2 == 1
            },
        Take::Finalizing => exists|n: nat|
            reports == seq![Report::Ready, Report::Started] + #[trigger] alternating(n) + seq![
                Report::Finalizing,
            ],
        Take::Over => false,
    }
}

/// `last` ends a take from `take`: a failure from any stage, a discard
/// while waiting or from a discarded recording, a saved movie only after
/// finalizing.
pub open spec fn ends_take(take: Take, last: Report) -> bool {
    match last {
        Report::Failed => !(take is Over),
        Report::Discarded => take is Waiting || take matches Take::Running(_, true),
        Report::Saved => take is Finalizing,
        _ => false,
    }
}

/// The reports of a take at stage `take`; once over, the last report ends
/// the take and the ones before it are those of the stage it ended from.
pub open spec fn take_log(take: Take, reports: Seq<Report>) -> bool {
    if take is Over {
        &&& reports.len() > 0
        &&& exists|t: Take| #[trigger] open_log(t, reports.drop_last()) && ends_take(t, reports.last())
    } else {
        open_log(take, reports)
    }
}

proof fn lemma_take_after_keeps_the_log(take: Take, reports: Seq<Report>, input: TakeInput)
    requires
        take_log(take, reports),
    ensures
        ({
            let (t2, e) = take_after(take, input);
            take_log(
                t2,
                match e {
                    Some(r) => reports.push(r),
                    None => reports,
                },
            )
        }),
{
    let head = seq![Report::Ready, Report::Started];
    let (t2, e) = take_after(take, input);
    if !(take is Over) {
        if let Some(r) = e {
            assert(reports.push(r).drop_last() =~= reports);
        }
        if input is Failed {
            assert(open_log(take, reports) && ends_take(take, Report::Failed));
        } else {
            match (take, input) {
                (Take::Opening, TakeInput::Opened) => {
                    assert(reports.push(Report::Ready) =~= seq![Report::Ready]);
                },
                (Take::Waiting, TakeInput::Received(r)) => {
                    if t2 is Running {
                        assert(reports.push(Report::Started) =~= head + alternating(0));
                    } else if t2 is Over {
                        assert(open_log(take, reports) && ends_take(take, Report::Discarded));
                    }
                },
                (Take::Running(p, d), TakeInput::Command(c)) => {
                    let n = choose|n: nat|
                        {
                            &&& reports == head + #[trigger] alternating(n)
                            &&& p is Recording || p is Paused || p is Stopping
                            &&& p is Recording ==> n % 2 == 0
                            &&& p is Paused ==> n % 2 == 1
                        };
                    if let Some(r) = e {
                        assert(reports.push(r) =~= head + alternating(n + 1));
                    } else {
                        assert(reports == head + alternating(n));
                    }
                },
                (Take::Running(p, d), TakeInput::LoopEnded) => {
                    if d {
                        assert(open_log(take, reports) && ends_take(take, Report::Discarded));
                    } else {
                        let n = choose|n: nat|
                            {
                                &&& reports == head + #[trigger] alternating(n)
                                &&& p is Recording || p is Paused || p is Stopping
                                &&& p is Recording ==> n % 2 == 0
                                &&& p is Paused ==> n % 2 == 1
                            };
                        assert(reports.push(Report::Finalizing) =~= head + alternating(n) + seq![
                            Report::Finalizing,
                        ]);
                    }
                },
                (Take::Finalizing, TakeInput::Finalized) => {
                    assert(open_log(take, reports) && ends_take(take, Report::Saved));
                },
                _ => {},
            }
        }
    }
}

/// A take reports in order, whatever the worker observes and the UI sends:
/// `Ready` first; `Started` only as the second report, after Begin;
/// pauses and resumes alternate, starting with a pause, and only between
/// `Started` and the end; `Saved` only right after `Finalizing`; a take
/// stopped, discarded or abandoned by the UI before Begin reports
/// `Discarded` after `Ready` and never `Started`; the first failure ends the
/// take with `Failed`; and after the take is over nothing more is reported.
pub proof fn lemma_take_reports_in_order(inputs: Seq<TakeInput>, more: Seq<TakeInput>)
    ensures
        take_log(take_run(inputs).0, take_run(inputs).1),
        take_run(inputs).0 is Over ==> take_run(inputs + more) == take_run(inputs),
    decreases inputs.len() + more.len(),
{
    if inputs.len() > 0 {
        lemma_take_reports_in_order(inputs.drop_last(), seq![]);
        let (t, reports) = take_run(inputs.drop_last());
        lemma_take_after_keeps_the_log(t, reports, inputs.last());
    }
    if more.len() > 0 && take_run(inputs).0 is Over {
        lemma_take_reports_in_order(inputs, more.drop_last());
        assert((inputs + more).drop_last() =~= inputs + more.drop_last());
        assert((inputs + more).last() == more.last());
    } else if more.len() == 0 {
        assert(inputs + more =~= inputs);
    }
}

} // verus!
