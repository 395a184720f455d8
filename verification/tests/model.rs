use loomik::model::{
    format_duration, ActiveSlice, Countdown, Format, Phase, Quality, RecordingClock,
    NANOS_PER_SECOND,
};

const MS: u64 = 1_000_000;
const S: u64 = NANOS_PER_SECOND;

#[test]
fn countdown_shows_every_digit_and_holds_zero_before_beginning() {
    let base = 50 * S;
    let mut countdown = Countdown::default();
    assert_eq!(countdown.tick(base), Some(3));
    assert_eq!(countdown.tick(base + 999 * MS), Some(3));
    assert_eq!(countdown.tick(base + S), Some(2));
    assert_eq!(countdown.tick(base + 2 * S), Some(1));
    assert_eq!(countdown.tick(base + 3 * S), Some(0));
    assert_eq!(countdown.tick(base + 3299 * MS), Some(0));
    assert_eq!(countdown.tick(base + 3300 * MS), None);
    let mut stalled = Countdown::default();
    assert_eq!(stalled.tick(base), Some(3));
    assert_eq!(stalled.tick(base + 15 * S), Some(2));
    assert_eq!(stalled.tick(base + 16 * S), Some(1));
}

#[test]
fn preroll_is_excluded_from_video_and_audio_and_begin_is_idempotent() {
    let base = 7 * S;
    let mut clock = RecordingClock::default();
    assert_eq!(clock.elapsed(base + 10 * S), 0);
    assert!(clock.instant_at(0).is_none());
    assert!(clock.active_slices(base, base + 10 * S).is_empty());
    let begin = base + 10 * S;
    clock.begin(begin);
    clock.begin(begin + S);
    assert_eq!(clock.instant_at(0), Some(begin));
    let slices = clock.active_slices(base, begin + 10 * MS);
    assert_eq!(slices.len(), 1);
    assert_eq!(slices[0].start, begin);
    assert_eq!(slices[0].output_start, 0);
}

#[test]
fn paused_time_never_advances_and_hours_are_unbounded() {
    let now = 3 * S;
    let mut c = RecordingClock::default();
    c.start(now);
    c.pause(now + 12 * S);
    assert_eq!(c.elapsed(now + 90 * S) / S, 12);
    c.resume(now + 90 * S);
    assert_eq!(c.elapsed(now + 100 * S) / S, 22);
    assert_eq!(format_duration(360000 * S), "100:00:00");
}

#[test]
fn duplicate_pause_and_resume_are_idempotent() {
    let t = 11 * S;
    let mut c = RecordingClock::default();
    c.start(t);
    c.pause(t + 4 * S);
    c.pause(t + 8 * S);
    c.resume(t + 10 * S);
    c.resume(t + 12 * S);
    assert_eq!(c.elapsed(t + 20 * S) / S, 14);
}

#[test]
fn output_slots_keep_their_acquisition_time_after_pause_and_encoder_stall() {
    let base = 4 * S;
    let mut clock = RecordingClock::default();
    clock.start(base);
    clock.pause(base + 2 * S);
    clock.resume(base + 9 * S);
    assert_eq!(clock.instant_at(1999 * MS), Some(base + 1999 * MS));
    assert_eq!(clock.instant_at(2 * S), Some(base + 9 * S));
    assert_eq!(clock.instant_at(2010 * MS), Some(base + 9010 * MS));
}

#[test]
fn running_follows_start_pause_and_resume() {
    let mut c = RecordingClock::default();
    assert!(!c.running());
    c.start(S);
    assert!(c.running());
    c.pause(2 * S);
    assert!(!c.running());
    c.resume(3 * S);
    assert!(c.running());
}

#[test]
fn elapsed_never_decreases_while_running() {
    let mut c = RecordingClock::default();
    c.start(5 * S);
    let mut last = 0;
    for t in 5..40 {
        let e = c.elapsed(t * S);
        assert!(e >= last);
        last = e;
    }
    assert_eq!(last, 34 * S);
}

#[test]
fn instant_at_round_trips_to_elapsed() {
    let mut c = RecordingClock::default();
    c.start(S);
    for position in [0, 500 * MS, 2 * S - 1, 2 * S, 3 * S, 40 * S] {
        let host = c.instant_at(position).unwrap();
        assert_eq!(host, S + position);
        assert_eq!(c.elapsed(host), position);
    }
    c.pause(3 * S);
    c.resume(8 * S);
    c.pause(10 * S);
    assert_eq!(c.instant_at(2 * S - 1), Some(3 * S - 1));
    assert_eq!(c.instant_at(2 * S), Some(8 * S));
    assert_eq!(c.instant_at(4 * S - 1), Some(10 * S - 1));
    assert_eq!(c.instant_at(4 * S), None);
}

#[test]
fn active_slices_split_a_span_at_pauses() {
    let mut c = RecordingClock::default();
    c.start(S);
    c.pause(2 * S);
    c.resume(3 * S);
    c.pause(4 * S);
    let slices = c.active_slices(0, 5 * S);
    assert_eq!(
        slices,
        vec![
            ActiveSlice { start: S, end: 2 * S, output_start: 0 },
            ActiveSlice { start: 3 * S, end: 4 * S, output_start: S },
        ]
    );
    let inner = c.active_slices(1500 * MS, 3500 * MS);
    assert_eq!(
        inner,
        vec![
            ActiveSlice { start: 1500 * MS, end: 2 * S, output_start: 500 * MS },
            ActiveSlice { start: 3 * S, end: 3500 * MS, output_start: S },
        ]
    );
    assert!(c.active_slices(5 * S, 5 * S).is_empty());
}

#[test]
fn format_duration_writes_minutes_and_hours() {
    assert_eq!(format_duration(0), "0:00");
    assert_eq!(format_duration(59 * S + 999 * MS), "0:59");
    assert_eq!(format_duration(61 * S), "1:01");
    assert_eq!(format_duration(3599 * S), "59:59");
    assert_eq!(format_duration(3600 * S), "1:00:00");
    assert_eq!(format_duration(3 * 3600 * S + 5 * 60 * S + 7 * S), "3:05:07");
}

#[test]
fn countdown_zero_is_held_for_three_tenths_of_a_second() {
    let mut c = Countdown::default();
    assert_eq!(c.digit(), 3);
    assert_eq!(c.tick(0), Some(3));
    assert_eq!(c.tick(S), Some(2));
    assert_eq!(c.tick(2 * S), Some(1));
    assert_eq!(c.tick(3 * S), Some(0));
    assert_eq!(c.digit(), 0);
    assert_eq!(c.tick(3 * S + 299 * MS), Some(0));
    assert_eq!(c.tick(3 * S + 300 * MS), None);
    assert_eq!(c.tick(10 * S), None);
}

#[test]
fn settings_vocabulary_matches_the_panel() {
    assert_eq!(Format::Mp4.extension(), "mp4");
    assert_eq!(Format::Mov.extension(), "mov");
    assert_eq!(Format::Mkv.extension(), "mkv");
    assert_eq!(Format::Mkv.label(), "MKV");
    assert_eq!(Format::default(), Format::Mp4);
    assert_eq!(Quality::Compact.label(), "Compact · 720p");
    assert_eq!(Quality::Balanced.label(), "Balanced · 1080p");
    assert_eq!(Quality::Crisp.label(), "Crisp · up to 4K");
    assert_eq!(Quality::default(), Quality::Balanced);
    assert_eq!(Format::ALL.len(), 3);
    assert_eq!(Quality::ALL.len(), 3);
}

#[test]
fn only_idle_is_inactive() {
    assert!(!Phase::Idle.is_active());
    assert!(Phase::Starting.is_active());
    assert!(Phase::Recording.is_active());
    assert!(Phase::Paused.is_active());
    assert!(Phase::Stopping.is_active());
    assert_eq!(Phase::default(), Phase::Idle);
}

#[test]
fn later_slots_map_to_later_host_times_and_slices_cover_active_time() {
    let mut c = RecordingClock::default();
    c.start(S);
    c.pause(2 * S);
    c.resume(3 * S);
    c.pause(4 * S);
    let mut last = 0;
    for p in (0..2000).map(|ms| ms * MS) {
        let t = c.instant_at(p).unwrap();
        assert!(t > last || p == 0);
        last = t;
    }
    let slices = c.active_slices(0, 5 * S);
    for w in slices.windows(2) {
        assert!(w[0].end <= w[1].start);
    }
    let covered: u64 = slices.iter().map(|s| s.end - s.start).sum();
    assert_eq!(covered, 2 * S);
    assert_eq!(c.instant_at(c.elapsed(10 * S)), None);
}

#[test]
fn resume_continues_from_the_pause_and_elapsed_saturates() {
    let mut c = RecordingClock::default();
    c.start(2 * S);
    c.pause(5 * S);
    let before = c.elapsed(9 * S);
    let first = c.instant_at(S);
    c.resume(9 * S);
    assert!(c.running());
    assert_eq!(c.elapsed(9 * S), before);
    assert_eq!(c.elapsed(12 * S), before + 3 * S);
    assert_eq!(c.instant_at(S), first);
    assert_eq!(c.instant_at(before), Some(9 * S));
    let running = c.elapsed(20 * S);
    c.resume(30 * S);
    assert_eq!(c.elapsed(20 * S), running);

    let mut far = RecordingClock::default();
    far.start(100);
    far.pause(u64::MAX);
    assert_eq!(far.elapsed(0), u64::MAX - 100);
    far.resume(0);
    assert_eq!(far.elapsed(200), u64::MAX);
}
