use loomik::model::{Phase, RecordingClock};
use loomik::recording::{
    apply_command, begin_decision, camera_is_fresh, next_step, on_command, on_event,
    pause_toggle, preparation_step, quit_action, screen_frame_usable, Command, Event,
    Preparation, QuitAction, Reaction, Received, Step, DELIVERY_BUDGET, FIRST_FRAME_POLL,
    FIRST_FRAME_TIMEOUT, POLL,
};

use loomik::recording::{take_step, Report, Take, TakeInput};

const MS: u64 = 1_000_000;
const S: u64 = 1_000_000_000;

#[test]
fn controls_move_the_shared_timeline() {
    let mut clock = RecordingClock::default();
    apply_command(&mut clock, Command::Begin, S);
    apply_command(&mut clock, Command::Pause, 3 * S);
    assert_eq!(clock.elapsed(10 * S), 2 * S);
    apply_command(&mut clock, Command::Resume, 5 * S);
    apply_command(&mut clock, Command::Stop, 6 * S);
    assert_eq!(clock.elapsed(10 * S), 3 * S);
    assert!(!clock.running());
}

#[test]
fn worker_answers_pause_only_while_recording() {
    let (p, d, e) = on_command(Phase::Recording, false, Command::Pause);
    assert_eq!((p, d), (Phase::Paused, false));
    assert!(matches!(e, Some(Event::Paused)));
    let (p, _, e) = on_command(Phase::Paused, false, Command::Pause);
    assert_eq!(p, Phase::Paused);
    assert!(e.is_none());
    let (p, _, e) = on_command(Phase::Paused, false, Command::Resume);
    assert_eq!(p, Phase::Recording);
    assert!(matches!(e, Some(Event::Resumed)));
    let (p, d, e) = on_command(Phase::Recording, false, Command::Discard);
    assert_eq!((p, d), (Phase::Stopping, true));
    assert!(e.is_none());
    let (p, d, _) = on_command(Phase::Paused, false, Command::Stop);
    assert_eq!((p, d), (Phase::Stopping, false));
}

#[test]
fn prepared_take_waits_for_begin_or_is_abandoned() {
    assert_eq!(begin_decision(Received::Command(Command::Begin)), Some(true));
    assert_eq!(begin_decision(Received::Command(Command::Stop)), Some(false));
    assert_eq!(begin_decision(Received::Command(Command::Discard)), Some(false));
    assert_eq!(begin_decision(Received::Disconnected), Some(false));
    assert_eq!(begin_decision(Received::Nothing), None);
    assert_eq!(begin_decision(Received::Command(Command::Pause)), None);
}

#[test]
fn warm_up_gives_up_after_fifteen_seconds() {
    assert_eq!(preparation_step(Received::Nothing, 0), Preparation::Wait(FIRST_FRAME_POLL));
    assert_eq!(preparation_step(Received::Nothing, FIRST_FRAME_TIMEOUT - 1), Preparation::Wait(20 * MS));
    assert_eq!(preparation_step(Received::Nothing, 15 * S), Preparation::NoFrames);
    assert_eq!(preparation_step(Received::Command(Command::Discard), 0), Preparation::Discard);
    assert_eq!(preparation_step(Received::Disconnected, 20 * S), Preparation::Discard);
}

#[test]
fn slots_are_encoded_after_their_delivery_budget() {
    let mut clock = RecordingClock::default();
    clock.begin(S);
    // The first slot is due at once but waits for its delivery deadline.
    assert_eq!(next_step(&clock, false, 0, 30, S), Step::Wait(POLL));
    assert_eq!(next_step(&clock, false, 0, 30, S + 99 * MS), Step::Wait(MS));
    assert_eq!(next_step(&clock, false, 0, 30, S + DELIVERY_BUDGET), Step::Encode { target: S, lag: 100 * MS });
    // Slot 3 at 30 fps is acquired 100 ms after the start.
    assert_eq!(next_step(&clock, false, 3, 30, S + 300 * MS), Step::Encode { target: S + 100 * MS, lag: 200 * MS });
    // Everything due is written.
    assert_eq!(next_step(&clock, false, 10, 30, S + 300 * MS), Step::Wait(POLL));
    assert_eq!(next_step(&clock, true, 10, 30, S + 300 * MS), Step::Finish);
}

#[test]
fn slots_after_a_pause_keep_their_acquisition_time() {
    let mut clock = RecordingClock::default();
    clock.start(S);
    clock.pause(2 * S);
    clock.resume(5 * S);
    // Slot 30 at 30 fps is output second 1: host time 5 s.
    assert_eq!(next_step(&clock, false, 30, 30, 6 * S), Step::Encode { target: 5 * S, lag: S });
}

#[test]
fn encoding_that_falls_two_seconds_behind_is_stopped() {
    let mut clock = RecordingClock::default();
    clock.start(0);
    assert_eq!(next_step(&clock, false, 0, 30, 2 * S), Step::Overloaded);
    assert!(matches!(next_step(&clock, false, 1, 30, 2 * S), Step::Encode { .. }));
}

#[test]
fn stopping_before_any_slot_maps_finishes() {
    let clock = RecordingClock::default();
    assert_eq!(next_step(&clock, true, 0, 30, S), Step::Finish);
    assert_eq!(next_step(&clock, false, 0, 30, S), Step::Wait(POLL));
}

#[test]
fn frame_freshness_rules() {
    assert!(camera_is_fresh(S, S - 250 * MS));
    assert!(!camera_is_fresh(S, S - 251 * MS));
    assert!(camera_is_fresh(S, 2 * S));
    assert!(screen_frame_usable(true, S, S));
    assert!(!screen_frame_usable(true, S + 1, S));
    assert!(screen_frame_usable(false, S + 1, S));
}

#[test]
fn ui_follows_worker_events() {
    assert_eq!(on_event(Phase::Starting, &Event::Ready), (Phase::Starting, Reaction::ShowCountdown));
    assert_eq!(on_event(Phase::Idle, &Event::Ready), (Phase::Idle, Reaction::Nothing));
    assert_eq!(on_event(Phase::Starting, &Event::Started), (Phase::Recording, Reaction::Nothing));
    assert_eq!(on_event(Phase::Stopping, &Event::Started), (Phase::Stopping, Reaction::Nothing));
    assert_eq!(on_event(Phase::Recording, &Event::Paused), (Phase::Paused, Reaction::Nothing));
    assert_eq!(on_event(Phase::Paused, &Event::Resumed), (Phase::Recording, Reaction::Nothing));
    assert_eq!(on_event(Phase::Recording, &Event::Finalizing), (Phase::Stopping, Reaction::Nothing));
    assert_eq!(
        on_event(Phase::Stopping, &Event::Saved(std::path::PathBuf::from("a.mp4"))),
        (Phase::Idle, Reaction::Complete)
    );
    assert_eq!(on_event(Phase::Stopping, &Event::Discarded), (Phase::Idle, Reaction::Complete));
    assert_eq!(on_event(Phase::Recording, &Event::Failed("x".into())), (Phase::Idle, Reaction::Complete));
}

#[test]
fn pause_button_and_quit_requests() {
    assert_eq!(pause_toggle(Phase::Recording), Some(Command::Pause));
    assert_eq!(pause_toggle(Phase::Paused), Some(Command::Resume));
    assert_eq!(pause_toggle(Phase::Stopping), None);
    assert_eq!(quit_action(Phase::Starting), QuitAction::StopThenQuit);
    assert_eq!(quit_action(Phase::Stopping), QuitAction::QuitWhenStopped);
    assert_eq!(quit_action(Phase::Recording), QuitAction::Confirm);
    assert_eq!(quit_action(Phase::Paused), QuitAction::Confirm);
    assert_eq!(quit_action(Phase::Idle), QuitAction::Close);
}

#[test]
fn pause_and_resume_reports_alternate() {
    let mut phase = Phase::Recording;
    let mut discard = false;
    let mut reports = Vec::new();
    for command in [
        Command::Resume,
        Command::Pause,
        Command::Pause,
        Command::Resume,
        Command::Resume,
        Command::Pause,
        Command::Stop,
        Command::Resume,
        Command::Pause,
    ] {
        let (p, d, e) = on_command(phase, discard, command);
        phase = p;
        discard = d;
        if let Some(e) = e {
            reports.push(matches!(e, Event::Paused));
        }
    }
    assert_eq!(reports, vec![true, false, true]);
    assert_eq!(phase, Phase::Stopping);
    assert!(!discard);
}

fn run_take(inputs: &[TakeInput]) -> (Take, Vec<Report>) {
    let mut take = Take::Opening;
    let mut reports = Vec::new();
    for input in inputs {
        let (next, report) = take_step(take, *input);
        take = next;
        reports.extend(report);
    }
    (take, reports)
}

#[test]
fn a_take_reports_ready_started_and_saved_in_order() {
    let (take, reports) = run_take(&[
        TakeInput::Received(Received::Command(Command::Begin)),
        TakeInput::Opened,
        TakeInput::Received(Received::Nothing),
        TakeInput::Received(Received::Command(Command::Pause)),
        TakeInput::Received(Received::Command(Command::Begin)),
        TakeInput::Command(Command::Resume),
        TakeInput::Command(Command::Pause),
        TakeInput::Command(Command::Pause),
        TakeInput::Command(Command::Resume),
        TakeInput::Command(Command::Stop),
        TakeInput::Command(Command::Resume),
        TakeInput::LoopEnded,
        TakeInput::Finalized,
        TakeInput::Failed,
        TakeInput::Opened,
    ]);
    assert_eq!(take, Take::Over);
    assert_eq!(
        reports,
        vec![
            Report::Ready,
            Report::Started,
            Report::Paused,
            Report::Resumed,
            Report::Finalizing,
            Report::Saved,
        ]
    );
}

#[test]
fn a_take_abandoned_or_failed_reports_once() {
    let stop = TakeInput::Received(Received::Command(Command::Stop));
    assert_eq!(run_take(&[TakeInput::Opened, stop]), (Take::Over, vec![Report::Ready, Report::Discarded]));
    let gone = TakeInput::Received(Received::Disconnected);
    assert_eq!(run_take(&[TakeInput::Opened, gone, TakeInput::Opened]).1, vec![Report::Ready, Report::Discarded]);
    let begin = TakeInput::Received(Received::Command(Command::Begin));
    assert_eq!(
        run_take(&[TakeInput::Opened, begin, TakeInput::Command(Command::Discard), TakeInput::LoopEnded, TakeInput::Finalized]).1,
        vec![Report::Ready, Report::Started, Report::Discarded]
    );
    assert_eq!(run_take(&[TakeInput::Failed, TakeInput::Opened]), (Take::Over, vec![Report::Failed]));
    assert_eq!(
        run_take(&[TakeInput::Opened, begin, TakeInput::Command(Command::Pause), TakeInput::Failed, TakeInput::LoopEnded]).1,
        vec![Report::Ready, Report::Started, Report::Paused, Report::Failed]
    );
    assert_eq!(
        run_take(&[TakeInput::Opened, begin, TakeInput::Command(Command::Pause), TakeInput::Command(Command::Stop)]).0,
        Take::Running(Phase::Stopping, false)
    );
}
