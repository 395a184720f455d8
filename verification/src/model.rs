//! Recording settings vocabulary, the recorder's phases, the start countdown
//! and the pause-aware recording timeline.
//!
//! Host time is measured in nanoseconds on one monotonic timeline (`u64`);
//! durations are nanoseconds as well.
use crate::text::{decimal, push_char, push_decimal};
use vstd::prelude::*;

verus! {

/// One second in nanoseconds.
pub const NANOS_PER_SECOND: u64 = 1_000_000_000;

/// Output container.
#[derive(Debug, Clone, Copy, PartialEq, Eq, Structural)]
pub enum Format {
    Mp4,
    Mov,
    Mkv,
}

impl Format {
    pub const ALL: [Format; 3] = [Format::Mp4, Format::Mov, Format::Mkv];

    pub open spec fn spec_extension(self) -> Seq<char> {
        match self {
            Format::Mp4 => "mp4"@,
            Format::Mov => "mov"@,
            Format::Mkv => "mkv"@,
        }
    }

    pub open spec fn spec_label(self) -> Seq<char> {
        match self {
            Format::Mp4 => "MP4"@,
            Format::Mov => "MOV"@,
            Format::Mkv => "MKV"@,
        }
    }

    /// File extension of the container, without the dot.
    pub fn extension(self) -> (r: &'static str)
        ensures
            r@ == self.spec_extension(),
    {
        match self {
            Format::Mp4 => "mp4",
            Format::Mov => "mov",
            Format::Mkv => "mkv",
        }
    }

    /// Name shown in the settings panel.
    pub fn label(self) -> (r: &'static str)
        ensures
            r@ == self.spec_label(),
    {
        match self {
            Format::Mp4 => "MP4",
            Format::Mov => "MOV",
            Format::Mkv => "MKV",
        }
    }
}

impl Default for Format {
    fn default() -> (r: Self)
        ensures
            r == Format::Mp4,
    {
        Format::Mp4
    }
}

/// Output size class.
#[derive(Debug, Clone, Copy, PartialEq, Eq, Structural)]
pub enum Quality {
    Compact,
    Balanced,
    Crisp,
}

impl Quality {
    pub const ALL: [Quality; 3] = [Quality::Compact, Quality::Balanced, Quality::Crisp];

    pub open spec fn spec_label(self) -> Seq<char> {
        match self {
            Quality::Compact => "Compact · 720p"@,
            Quality::Balanced => "Balanced · 1080p"@,
            Quality::Crisp => "Crisp · up to 4K"@,
        }
    }

    /// Name shown in the settings panel.
    pub fn label(self) -> (r: &'static str)
        ensures
            r@ == self.spec_label(),
    {
        match self {
            Quality::Compact => "Compact · 720p",
            Quality::Balanced => "Balanced · 1080p",
            Quality::Crisp => "Crisp · up to 4K",
        }
    }
}

impl Default for Quality {
    fn default() -> (r: Self)
        ensures
            r == Quality::Balanced,
    {
        Quality::Balanced
    }
}

/// Kind of desktop capture source.
#[derive(Debug, Clone, Copy, PartialEq, Eq, Structural)]
pub enum SourceKind {
    Display,
    Window,
}

/// A camera or microphone offered by the operating system.
#[derive(Debug, Clone)]
pub struct Device {
    pub id: String,
    pub name: String,
}

/// Lifecycle of one recording.
#[derive(Debug, Clone, Copy, PartialEq, Eq, Structural)]
pub enum Phase {
    Idle,
    Starting,
    Recording,
    Paused,
    Stopping,
}

impl Default for Phase {
    fn default() -> (r: Self)
        ensures
            r == Phase::Idle,
    {
        Phase::Idle
    }
}

impl Phase {
    pub open spec fn spec_is_active(self) -> bool {
        !(self is Idle)
    }

    /// Every phase but `Idle` belongs to a take in progress.
    pub fn is_active(self) -> (r: bool)
        ensures
            r == self.spec_is_active(),
    {
        match self {
            Phase::Idle => false,
            _ => true,
        }
    }
}

} // verus!

verus! {

/// `a + b`, or `u64::MAX` where the sum does not fit.
pub open spec fn sat_add(a: u64, b: u64) -> u64 {
    if a + b <= u64::MAX {
        (a + b) as u64
    } else {
        u64::MAX
    }
}

/// `a - b`, or zero where `b > a`.
pub open spec fn sat_sub(a: u64, b: u64) -> u64 {
    if a >= b {
        (a - b) as u64
    } else {
        0
    }
}

/// How long each digit of the countdown stays visible.
pub open spec fn countdown_interval(digit: u8) -> u64 {
    if digit == 0 {
        300_000_000
    } else {
        NANOS_PER_SECOND
    }
}

/// One tick of the countdown at `now`: the result shown (`None` once the
/// countdown is over), the digit and when it was first shown.
pub open spec fn countdown_step(digit: u8, shown_at: Option<u64>, now: u64) -> (Option<u8>, u8, Option<u64>) {
    let shown = match shown_at {
        Some(t) => t,
        None => now,
    };
    if sat_sub(now, shown) >= countdown_interval(digit) {
        if digit == 0 {
            (None, 0, Some(shown))
        } else {
            (Some((digit - 1) as u8), (digit - 1) as u8, Some(now))
        }
    } else {
        (Some(digit), digit, Some(shown))
    }
}

/// The countdown never skips a digit, replaces a digit only after it was
/// shown for its whole interval (one second; 300 ms for zero), and ends only
/// after zero was shown for its interval.
pub proof fn lemma_countdown_shows_every_digit(digit: u8, shown_at: Option<u64>, now: u64)
    ensures
        ({
            let (r, d, _) = countdown_step(digit, shown_at, now);
            let shown = match shown_at {
                Some(t) => t,
                None => now,
            };
            &&& d == digit || d + 1 == digit
            &&& d + 1 == digit ==> now >= shown + NANOS_PER_SECOND && digit > 0
            &&& r is None ==> digit == 0 && now >= shown + 300_000_000
            &&& r is Some ==> r == Some(d)
        }),
{
}

/// Each digit gets its own visible interval, even after a UI stall. Zero stays
/// visible briefly before the shared media clock is started.
#[derive(Debug)]
pub struct Countdown {
    digit: u8,
    shown_at: Option<u64>,
}

impl Default for Countdown {
    fn default() -> (r: Self)
        ensures
            r.spec_digit() == 3,
            r.spec_shown_at() is None,
    {
        Countdown { digit: 3, shown_at: None }
    }
}

impl Countdown {
    /// The digit currently shown.
    pub closed spec fn spec_digit(&self) -> u8 {
        self.digit
    }

    /// When the current digit was first shown, if it has been.
    pub closed spec fn spec_shown_at(&self) -> Option<u64> {
        self.shown_at
    }

    /// Advances the countdown to `now`: a digit is replaced by the next lower
    /// one once it has been shown for its whole interval (from the time it
    /// was first shown), and the countdown ends (`None`) once zero has been
    /// shown for its interval.
    pub fn tick(&mut self, now: u64) -> (r: Option<u8>)
        ensures
            (r, final(self).spec_digit(), final(self).spec_shown_at()) == countdown_step(
                old(self).spec_digit(),
                old(self).spec_shown_at(),
                now,
            ),
    {
        let shown: u64 = match self.shown_at {
            Some(t) => t,
            None => now,
        };
        self.shown_at = Some(shown);
        let interval: u64 = if self.digit == 0 {
            300_000_000
        } else {
            NANOS_PER_SECOND
        };
        if now.saturating_sub(shown) >= interval {
            if self.digit == 0 {
                return None;
            }
            self.digit = self.digit - 1;
            self.shown_at = Some(now);
        }
        Some(self.digit)
    }

    /// The digit currently shown.
    pub fn digit(&self) -> (r: u8)
        ensures
            r == self.spec_digit(),
    {
        self.digit
    }
}

/// One active stretch of the recording timeline: host time `start` until
/// `end` (open while recording), mapped to output time `offset` at `start`.
#[derive(Debug, Clone, Copy, PartialEq, Eq, Structural)]
pub struct ActiveInterval {
    pub start: u64,
    pub end: Option<u64>,
    pub offset: u64,
}

/// Part of a host-time span that falls inside one active interval, with the
/// output time at which it begins.
#[derive(Debug, Clone, Copy, PartialEq, Eq, Structural)]
pub struct ActiveSlice {
    pub start: u64,
    pub end: u64,
    pub output_start: u64,
}

/// Output time reached inside interval `i` at host time `now`.
pub open spec fn interval_elapsed(i: ActiveInterval, now: u64) -> u64 {
    let until = match i.end {
        Some(e) => e,
        None => now,
    };
    sat_add(i.offset, sat_sub(until, i.start))
}

/// Active (output) time at host time `now`.
pub open spec fn timeline_elapsed(ivs: Seq<ActiveInterval>, now: u64) -> u64 {
    if ivs.len() == 0 {
        0
    } else {
        interval_elapsed(ivs.last(), now)
    }
}

/// The timeline is currently advancing.
pub open spec fn timeline_running(ivs: Seq<ActiveInterval>) -> bool {
    ivs.len() > 0 && ivs.last().end is None
}

pub open spec fn opened_at(now: u64, offset: u64) -> ActiveInterval {
    ActiveInterval { start: now, end: None, offset }
}

pub open spec fn timeline_start(now: u64) -> Seq<ActiveInterval> {
    seq![opened_at(now, 0)]
}

pub open spec fn timeline_begin(ivs: Seq<ActiveInterval>, now: u64) -> Seq<ActiveInterval> {
    if ivs.len() == 0 {
        timeline_start(now)
    } else {
        ivs
    }
}

pub open spec fn timeline_pause(ivs: Seq<ActiveInterval>, now: u64) -> Seq<ActiveInterval> {
    if timeline_running(ivs) {
        let last = ivs.last();
        let end = if now >= last.start {
            now
        } else {
            last.start
        };
        ivs.update(ivs.len() - 1, ActiveInterval { end: Some(end), ..last })
    } else {
        ivs
    }
}

pub open spec fn timeline_resume(ivs: Seq<ActiveInterval>, now: u64) -> Seq<ActiveInterval> {
    if timeline_running(ivs) {
        ivs
    } else {
        ivs.push(opened_at(now, timeline_elapsed(ivs, now)))
    }
}

/// Host time of output position `position`, searching the latest interval
/// first; `None` where no interval covers the position.
pub open spec fn timeline_instant_at(ivs: Seq<ActiveInterval>, position: u64) -> Option<u64>
    decreases ivs.len(),
{
    if ivs.len() == 0 {
        None
    } else {
        let i = ivs.last();
        let t = i.start + (position - i.offset);
        if position >= i.offset && t <= u64::MAX && match i.end {
            Some(e) => t < e,
            None => true,
        } {
            Some(t as u64)
        } else {
            timeline_instant_at(ivs.drop_last(), position)
        }
    }
}

/// Interval `i` can still overlap host times from `start` on.
pub open spec fn reaches(i: ActiveInterval, start: u64) -> bool {
    match i.end {
        Some(e) => e > start,
        None => true,
    }
}

/// The slice of `[start, end)` inside interval `i`, if nonempty.
pub open spec fn slice_of(i: ActiveInterval, start: u64, end: u64) -> Seq<ActiveSlice> {
    let a = if start >= i.start {
        start
    } else {
        i.start
    };
    let stop = match i.end {
        Some(e) => e,
        None => end,
    };
    let b = if end <= stop {
        end
    } else {
        stop
    };
    if b > a {
        seq![ActiveSlice { start: a, end: b, output_start: sat_add(i.offset, (a - i.start) as u64) }]
    } else {
        seq![]
    }
}

/// Index of the first of the trailing intervals that reach `start`.
pub open spec fn reaching_from(ivs: Seq<ActiveInterval>, n: int, start: u64) -> int
    decreases n,
{
    if n <= 0 {
        0
    } else if reaches(ivs[n - 1], start) {
        reaching_from(ivs, n - 1, start)
    } else {
        n
    }
}

/// Slices of `[start, end)` inside intervals `lo..hi`, in timeline order.
pub open spec fn slices_between(
    ivs: Seq<ActiveInterval>,
    lo: int,
    hi: int,
    start: u64,
    end: u64,
) -> Seq<ActiveSlice>
    decreases hi - lo,
{
    if hi <= lo {
        seq![]
    } else {
        slices_between(ivs, lo, hi - 1, start, end) + slice_of(ivs[hi - 1], start, end)
    }
}

/// The active parts of host span `[start, end)`: of the trailing intervals
/// that reach `start`, the nonempty overlaps, in timeline order.
pub open spec fn timeline_slices(ivs: Seq<ActiveInterval>, start: u64, end: u64) -> Seq<ActiveSlice> {
    slices_between(ivs, reaching_from(ivs, ivs.len() as int, start), ivs.len() as int, start, end)
}

fn reaches_from(i: &ActiveInterval, start: u64) -> (r: bool)
    ensures
        r == reaches(*i, start),
{
    match i.end {
        Some(e) => e > start,
        None => true,
    }
}

/// A shared host-time timeline. Closed intervals preserve the acquisition-time
/// mapping for callbacks delivered after pause/resume and for delayed encoders.
#[derive(Debug, Clone)]
pub struct RecordingClock {
    intervals: Vec<ActiveInterval>,
}

impl Default for RecordingClock {
    fn default() -> (r: Self)
        ensures
            r@ == Seq::<ActiveInterval>::empty(),
            timeline_sound(r@),
    {
        proof {
            lemma_controls_keep_the_timeline_sound(Seq::<ActiveInterval>::empty(), 0);
        }
        RecordingClock { intervals: Vec::new() }
    }
}

impl View for RecordingClock {
    type V = Seq<ActiveInterval>;

    closed spec fn view(&self) -> Seq<ActiveInterval> {
        self.intervals@
    }
}

impl RecordingClock {
    /// Starts the timeline unless it has already started.
    pub fn begin(&mut self, now: u64)
        ensures
            final(self)@ == timeline_begin(old(self)@, now),
            timeline_wf(old(self)@) ==> timeline_wf(final(self)@),
            timeline_wf(old(self)@) && timeline_ordered(old(self)@) ==> timeline_ordered(
                final(self)@,
            ),
            timeline_sound(old(self)@) ==> timeline_sound(final(self)@),
    {
        proof {
            lemma_controls_keep_the_timeline_sound(self@, now);
            if timeline_wf(self@) {
                lemma_controls_keep_the_timeline_consistent(self@, now);
                if timeline_ordered(self@) {
                    lemma_controls_keep_the_timeline_ordered(self@, now);
                }
            }
        }
        if self.intervals.len() == 0 {
            self.start(now);
        }
    }

    /// Discards any previous timeline and starts a new one at `now`.
    pub fn start(&mut self, now: u64)
        ensures
            final(self)@ == timeline_start(now),
            timeline_wf(final(self)@),
            timeline_ordered(final(self)@),
            timeline_sound(final(self)@),
    {
        proof {
            lemma_controls_keep_the_timeline_sound(self@, now);
        }
        self.intervals.clear();
        self.intervals.push(ActiveInterval { start: now, end: None, offset: 0 });
    }

    /// Closes the open interval at `now` (never before its start); does
    /// nothing while paused.
    pub fn pause(&mut self, now: u64)
        ensures
            final(self)@ == timeline_pause(old(self)@, now),
            timeline_wf(old(self)@) ==> timeline_wf(final(self)@),
            timeline_wf(old(self)@) && timeline_ordered(old(self)@) ==> timeline_ordered(
                final(self)@,
            ),
            timeline_sound(old(self)@) ==> timeline_sound(final(self)@),
    {
        proof {
            lemma_controls_keep_the_timeline_sound(self@, now);
            if timeline_wf(self@) {
                lemma_controls_keep_the_timeline_consistent(self@, now);
                if timeline_ordered(self@) {
                    lemma_controls_keep_the_timeline_ordered(self@, now);
                }
            }
        }
        let n = self.intervals.len();
        if n > 0 {
            let last = self.intervals[n - 1];
            if last.end.is_none() {
                let end: u64 = if now >= last.start {
                    now
                } else {
                    last.start
                };
                self.intervals.set(n - 1, ActiveInterval { end: Some(end), ..last });
            }
        }
    }

    /// Opens a new interval at `now` that continues from the active time
    /// reached so far; does nothing while running.
    pub fn resume(&mut self, now: u64)
        ensures
            final(self)@ == timeline_resume(old(self)@, now),
            timeline_wf(old(self)@) && resumable(old(self)@) ==> timeline_wf(final(self)@),
            timeline_wf(old(self)@) && timeline_ordered(old(self)@) && resumes_after_end(
                old(self)@,
                now,
            ) ==> timeline_ordered(final(self)@),
            timeline_sound(old(self)@) && resumes_after_end(old(self)@, now) ==> timeline_sound(
                final(self)@,
            ),
    {
        proof {
            lemma_controls_keep_the_timeline_sound(self@, now);
            if timeline_wf(self@) {
                lemma_controls_keep_the_timeline_consistent(self@, now);
                if timeline_ordered(self@) {
                    lemma_controls_keep_the_timeline_ordered(self@, now);
                }
            }
        }
        if !self.running() {
            let offset = self.elapsed(now);
            self.intervals.push(ActiveInterval { start: now, end: None, offset });
        }
    }

    /// Active time at host time `now`; paused time is excluded.
    pub fn elapsed(&self, now: u64) -> (r: u64)
        ensures
            r == timeline_elapsed(self@, now),
    {
        let n = self.intervals.len();
        if n == 0 {
            return 0;
        }
        let last = self.intervals[n - 1];
        let until: u64 = match last.end {
            Some(e) => e,
            None => now,
        };
        last.offset.saturating_add(until.saturating_sub(last.start))
    }

    /// The timeline is advancing (started and not paused).
    pub fn running(&self) -> (r: bool)
        ensures
            r == timeline_running(self@),
    {
        let n = self.intervals.len();
        n > 0 && self.intervals[n - 1].end.is_none()
    }

    /// Output slot to acquisition time, including slots encoded after a pause.
    pub fn instant_at(&self, position: u64) -> (r: Option<u64>)
        ensures
            r == timeline_instant_at(self@, position),
    {
        let mut k = self.intervals.len();
        proof {
            assert(self@.subrange(0, k as int) =~= self@);
        }
        while k > 0
            invariant
                k <= self.intervals@.len(),
                timeline_instant_at(self@, position) == timeline_instant_at(
                    self@.subrange(0, k as int),
                    position,
                ),
            decreases k,
        {
            let i = self.intervals[k - 1];
            proof {
                assert(self@.subrange(0, k as int).drop_last() =~= self@.subrange(0, k - 1));
            }
            if position >= i.offset {
                if let Some(t) = i.start.checked_add(position - i.offset) {
                    let inside = match i.end {
                        Some(e) => t < e,
                        None => true,
                    };
                    if inside {
                        return Some(t);
                    }
                }
            }
            k = k - 1;
        }
        None
    }

    /// Clip audio at start/pause/resume/stop at sample precision, even when a
    /// single native buffer straddles multiple boundaries.
    pub fn active_slices(&self, start: u64, end: u64) -> (r: Vec<ActiveSlice>)
        ensures
            r@ == timeline_slices(self@, start, end),
    {
        let n = self.intervals.len();
        let mut k = n;
        while k > 0 && reaches_from(&self.intervals[k - 1], start)
            invariant
                n == self@.len(),
                k <= n,
                reaching_from(self@, n as int, start) == reaching_from(self@, k as int, start),
            decreases k,
        {
            k = k - 1;
        }
        let mut slices: Vec<ActiveSlice> = Vec::new();
        let mut j = k;
        while j < n
            invariant
                n == self@.len(),
                k <= j <= n,
                k == reaching_from(self@, n as int, start),
                slices@ == slices_between(self@, k as int, j as int, start, end),
            decreases n - j,
        {
            let i = self.intervals[j];
            let a: u64 = if start >= i.start {
                start
            } else {
                i.start
            };
            let stop: u64 = match i.end {
                Some(e) => e,
                None => end,
            };
            let b: u64 = if end <= stop {
                end
            } else {
                stop
            };
            if b > a {
                slices.push(
                    ActiveSlice { start: a, end: b, output_start: i.offset.saturating_add(a - i.start) },
                );
            }
            proof {
                assert(slices@ =~= slices_between(self@, k as int, j + 1, start, end));
            }
            j = j + 1;
        }
        slices
    }
}

} // verus!

verus! {

/// `n` as exactly two decimal digits (`n < 100`).
pub open spec fn two_digits(n: nat) -> Seq<char> {
    seq![crate::text::digit_char(n / 10), crate::text::digit_char(n % 10)]
}

/// `H:MM:SS` from one hour on, `M:SS` below; whole seconds, no hour limit.
pub open spec fn duration_text(nanos: u64) -> Seq<char> {
    let s = (nanos / NANOS_PER_SECOND) as nat;
    if s >= 3600 {
        decimal(s / 3600) + seq![':'] + two_digits(s / 60 % 60) + seq![':'] + two_digits(s % 60)
    } else {
        decimal(s / 60) + seq![':'] + two_digits(s % 60)
    }
}

fn push_two_digits(text: &mut String, n: u64)
    requires
        n < 100,
    ensures
        final(text)@ == old(text)@ + two_digits(n as nat),
{
    push_char(text, ((48u8 + (n / 10) as u8) as char));
    push_char(text, ((48u8 + (n % 10) as u8) as char));
    proof {
        assert(final(text)@ =~= old(text)@ + two_digits(n as nat));
    }
}

/// Timer text for an elapsed duration given in nanoseconds.
pub fn format_duration(time: u64) -> (r: String)
    ensures
        r@ == duration_text(time),
{
    let s = time / NANOS_PER_SECOND;
    let mut text = String::new();
    if s >= 3600 {
        push_decimal(&mut text, s / 3600);
        push_char(&mut text, ':');
        push_two_digits(&mut text, s / 60 % 60);
        push_char(&mut text, ':');
        push_two_digits(&mut text, s % 60);
    } else {
        push_decimal(&mut text, s / 60);
        push_char(&mut text, ':');
        push_two_digits(&mut text, s % 60);
    }
    proof {
        assert(text@ =~= duration_text(time));
    }
    text
}

/// While the timeline is paused (or has not begun), active time does not
/// advance: it is the same at every host time.
pub proof fn lemma_paused_time_never_advances(ivs: Seq<ActiveInterval>, t1: u64, t2: u64)
    requires
        !timeline_running(ivs),
    ensures
        timeline_elapsed(ivs, t1) == timeline_elapsed(ivs, t2),
{
}

/// Before the timeline begins (pre-roll), nothing is active: no active time,
/// no output slot maps to a host time, and no host span has an active part.
pub proof fn lemma_preroll_is_excluded(t: u64, position: u64, start: u64, end: u64)
    ensures
        timeline_elapsed(Seq::empty(), t) == 0,
        timeline_instant_at(Seq::empty(), position) is None,
        timeline_slices(Seq::empty(), start, end) == Seq::<ActiveSlice>::empty(),
{
}

/// Beginning an already begun timeline changes nothing.
pub proof fn lemma_begin_is_idempotent(ivs: Seq<ActiveInterval>, t1: u64, t2: u64)
    ensures
        timeline_begin(timeline_begin(ivs, t1), t2) == timeline_begin(ivs, t1),
{
}

/// A second pause, or a second resume, changes nothing.
pub proof fn lemma_pause_and_resume_are_idempotent(ivs: Seq<ActiveInterval>, t1: u64, t2: u64)
    ensures
        timeline_pause(timeline_pause(ivs, t1), t2) == timeline_pause(ivs, t1),
        timeline_resume(timeline_resume(ivs, t1), t2) == timeline_resume(ivs, t1),
{
    let p = timeline_pause(ivs, t1);
    if timeline_running(ivs) {
        assert(p.last().end is Some);
    }
    let r = timeline_resume(ivs, t1);
    if !timeline_running(ivs) {
        assert(r.last() == opened_at(t1, timeline_elapsed(ivs, t1)));
    }
}

/// Resuming continues the active time exactly where the pause left it: no
/// gap is inserted and no paused time is counted.
pub proof fn lemma_resume_continues_without_gap(ivs: Seq<ActiveInterval>, t: u64, d: u64)
    requires
        !timeline_running(ivs),
        t + d <= u64::MAX,
        timeline_elapsed(ivs, t) + d <= u64::MAX,
    ensures
        timeline_elapsed(timeline_resume(ivs, t), (t + d) as u64) == timeline_elapsed(ivs, t) + d,
{
    let r = timeline_resume(ivs, t);
    assert(r.last() == opened_at(t, timeline_elapsed(ivs, t)));
}

/// While recording, the output slot reached at host time `now` maps back to
/// `now` itself.
pub proof fn lemma_elapsed_round_trips_to_host_time(ivs: Seq<ActiveInterval>, now: u64)
    requires
        timeline_running(ivs),
        now >= ivs.last().start,
        ivs.last().offset + (now - ivs.last().start) <= u64::MAX,
    ensures
        timeline_instant_at(ivs, timeline_elapsed(ivs, now)) == Some(now),
{
}

proof fn lemma_slices_between_inside(
    ivs: Seq<ActiveInterval>,
    lo: int,
    hi: int,
    start: u64,
    end: u64,
)
    requires
        0 <= lo,
        hi <= ivs.len(),
    ensures
        forall|k: int|
            0 <= k < slices_between(ivs, lo, hi, start, end).len() ==> {
                let s = #[trigger] slices_between(ivs, lo, hi, start, end)[k];
                start <= s.start < s.end <= end
            },
    decreases hi - lo,
{
    if hi > lo {
        lemma_slices_between_inside(ivs, lo, hi - 1, start, end);
        let prefix = slices_between(ivs, lo, hi - 1, start, end);
        let piece = slice_of(ivs[hi - 1], start, end);
        assert forall|k: int|
            0 <= k < slices_between(ivs, lo, hi, start, end).len() implies {
                let s = #[trigger] slices_between(ivs, lo, hi, start, end)[k];
                start <= s.start < s.end <= end
            } by {
            if k >= prefix.len() {
                assert(slices_between(ivs, lo, hi, start, end)[k] == piece[k - prefix.len()]);
            } else {
                assert(slices_between(ivs, lo, hi, start, end)[k] == prefix[k]);
            }
        }
    }
}

proof fn lemma_reaching_from_bounds(ivs: Seq<ActiveInterval>, n: int, start: u64)
    requires
        0 <= n,
    ensures
        0 <= reaching_from(ivs, n, start) <= n,
    decreases n,
{
    if n > 0 && reaches(ivs[n - 1], start) {
        lemma_reaching_from_bounds(ivs, n - 1, start);
    }
}

/// Every active part of a host span lies inside that span and is nonempty,
/// so clipped audio never reaches outside the buffer it came from.
pub proof fn lemma_active_slices_lie_inside_the_span(
    ivs: Seq<ActiveInterval>,
    start: u64,
    end: u64,
)
    ensures
        forall|k: int|
            0 <= k < timeline_slices(ivs, start, end).len() ==> {
                let s = #[trigger] timeline_slices(ivs, start, end)[k];
                start <= s.start < s.end <= end
            },
{
    lemma_reaching_from_bounds(ivs, ivs.len() as int, start);
    lemma_slices_between_inside(
        ivs,
        reaching_from(ivs, ivs.len() as int, start),
        ivs.len() as int,
        start,
        end,
    );
}

} // verus!

verus! {

/// Active time never decreases as host time advances.
pub proof fn lemma_elapsed_never_decreases(ivs: Seq<ActiveInterval>, t1: u64, t2: u64)
    requires
        t1 <= t2,
    ensures
        timeline_elapsed(ivs, t1) <= timeline_elapsed(ivs, t2),
{
}

/// Interval `k` is closed, ends no earlier than it starts, and interval
/// `k + 1` continues the output time exactly where `k` ended.
pub open spec fn continues(ivs: Seq<ActiveInterval>, k: int) -> bool {
    match ivs[k].end {
        Some(e) => ivs[k].start <= e && ivs[k + 1].offset == ivs[k].offset + (e - ivs[k].start),
        None => false,
    }
}

/// A consistent timeline: every interval but the last is closed and
/// continued by the next without a gap or overlap in output time, and a
/// closed last interval ends no earlier than it starts.
pub open spec fn timeline_wf(ivs: Seq<ActiveInterval>) -> bool {
    &&& forall|k: int| 0 <= k < ivs.len() - 1 ==> #[trigger] continues(ivs, k)
    &&& (ivs.len() > 0 && ivs.last().end is Some) ==> ivs.last().start <= ivs.last().end->0
}

/// The active time a paused timeline resumes from still fits 64 bits.
pub open spec fn resumable(ivs: Seq<ActiveInterval>) -> bool {
    ivs.len() > 0 && ivs.last().end is Some ==> ivs.last().offset + (ivs.last().end->0
        - ivs.last().start) <= u64::MAX
}

/// Starting, beginning, pausing and resuming keep the timeline consistent
/// (resuming as long as its output time still fits 64 bits).
pub proof fn lemma_controls_keep_the_timeline_consistent(ivs: Seq<ActiveInterval>, now: u64)
    requires
        timeline_wf(ivs),
    ensures
        timeline_wf(timeline_start(now)),
        timeline_wf(timeline_begin(ivs, now)),
        timeline_wf(timeline_pause(ivs, now)),
        resumable(ivs) ==> timeline_wf(timeline_resume(ivs, now)),
{
    let p = timeline_pause(ivs, now);
    assert forall|k: int| 0 <= k < p.len() - 1 implies #[trigger] continues(p, k) by {
        assert(continues(ivs, k));
    }
    let r = timeline_resume(ivs, now);
    if !timeline_running(ivs) && ivs.len() > 0 && resumable(ivs) {
        assert forall|k: int| 0 <= k < r.len() - 1 implies #[trigger] continues(r, k) by {
            if k < ivs.len() - 1 {
                assert(continues(ivs, k));
            }
        }
    }
}

proof fn lemma_offsets_grow(ivs: Seq<ActiveInterval>, j: int, k: int)
    requires
        timeline_wf(ivs),
        0 <= j < k < ivs.len(),
    ensures
        ivs[j].end is Some,
        ivs[k].offset >= ivs[j].offset + (ivs[j].end->0 - ivs[j].start),
    decreases k - j,
{
    assert(continues(ivs, j));
    if k > j + 1 {
        lemma_offsets_grow(ivs, j, k - 1);
        assert(continues(ivs, k - 1));
    }
}

proof fn lemma_instant_at_skips_later(ivs: Seq<ActiveInterval>, n: int, position: u64)
    requires
        0 < n <= ivs.len(),
        forall|k: int| n <= k < ivs.len() ==> #[trigger] ivs[k].offset > position,
    ensures
        timeline_instant_at(ivs, position) == timeline_instant_at(ivs.subrange(0, n), position),
    decreases ivs.len() - n,
{
    if n < ivs.len() {
        assert(ivs[ivs.len() - 1].offset > position);
        let d = ivs.drop_last();
        assert(d.subrange(0, n) =~= ivs.subrange(0, n));
        assert forall|k: int| n <= k < d.len() implies #[trigger] d[k].offset > position by {
            assert(d[k] == ivs[k]);
        }
        lemma_instant_at_skips_later(d, n, position);
    } else {
        assert(ivs.subrange(0, n) =~= ivs);
    }
}

proof fn lemma_slice_maps_back(ivs: Seq<ActiveInterval>, j: int, start: u64, end: u64)
    requires
        timeline_wf(ivs),
        0 <= j < ivs.len(),
        ivs.last().offset + (end - ivs.last().start) <= u64::MAX,
    ensures
        forall|m: int|
            0 <= m < slice_of(ivs[j], start, end).len() ==> {
                let s = #[trigger] slice_of(ivs[j], start, end)[m];
                timeline_instant_at(ivs, s.output_start) == Some(s.start)
            },
{
    let piece = slice_of(ivs[j], start, end);
    if piece.len() > 0 {
        let s = piece[0];
        let i = ivs[j];
        assert(s.start >= i.start && s.start < s.end);
        // The slice starts before its interval's end, so its output time
        // is below every later interval's offset and does not saturate.
        if j < ivs.len() - 1 {
            assert(continues(ivs, j));
            lemma_offsets_grow(ivs, j, ivs.len() - 1);
            assert(i.offset + (s.start - i.start) < i.offset + (i.end->0 - i.start));
        } else {
            assert(i.offset + (s.start - i.start) < i.offset + (end - i.start));
        }
        assert(s.output_start == i.offset + (s.start - i.start));
        assert forall|k: int| j + 1 <= k < ivs.len() implies #[trigger] ivs[k].offset
            > s.output_start by {
            lemma_offsets_grow(ivs, j, k);
        }
        lemma_instant_at_skips_later(ivs, j + 1, s.output_start);
        let pre = ivs.subrange(0, j + 1);
        assert(pre.last() == i);
        assert(timeline_instant_at(pre, s.output_start) == Some(s.start));
        assert(piece =~= seq![s]);
    }
}

proof fn lemma_slices_between_map_back(
    ivs: Seq<ActiveInterval>,
    lo: int,
    hi: int,
    start: u64,
    end: u64,
)
    requires
        timeline_wf(ivs),
        0 <= lo,
        hi <= ivs.len(),
        ivs.len() > 0 ==> ivs.last().offset + (end - ivs.last().start) <= u64::MAX,
    ensures
        forall|k: int|
            0 <= k < slices_between(ivs, lo, hi, start, end).len() ==> {
                let s = #[trigger] slices_between(ivs, lo, hi, start, end)[k];
                timeline_instant_at(ivs, s.output_start) == Some(s.start)
            },
    decreases hi - lo,
{
    if hi > lo {
        lemma_slices_between_map_back(ivs, lo, hi - 1, start, end);
        lemma_slice_maps_back(ivs, hi - 1, start, end);
        let prefix = slices_between(ivs, lo, hi - 1, start, end);
        let piece = slice_of(ivs[hi - 1], start, end);
        assert forall|k: int|
            0 <= k < slices_between(ivs, lo, hi, start, end).len() implies {
                let s = #[trigger] slices_between(ivs, lo, hi, start, end)[k];
                timeline_instant_at(ivs, s.output_start) == Some(s.start)
            } by {
            if k >= prefix.len() {
                assert(slices_between(ivs, lo, hi, start, end)[k] == piece[k - prefix.len()]);
            } else {
                assert(slices_between(ivs, lo, hi, start, end)[k] == prefix[k]);
            }
        }
    }
}

/// Audio and video share one timeline: every active slice of a host span,
/// where clipped audio is written, begins at the output time whose video
/// slot is taken from that same host time.
pub proof fn lemma_audio_and_video_share_the_timeline(
    ivs: Seq<ActiveInterval>,
    start: u64,
    end: u64,
)
    requires
        timeline_wf(ivs),
        ivs.len() > 0 ==> ivs.last().offset + (end - ivs.last().start) <= u64::MAX,
    ensures
        forall|k: int|
            0 <= k < timeline_slices(ivs, start, end).len() ==> {
                let s = #[trigger] timeline_slices(ivs, start, end)[k];
                timeline_instant_at(ivs, s.output_start) == Some(s.start)
            },
{
    lemma_reaching_from_bounds(ivs, ivs.len() as int, start);
    lemma_slices_between_map_back(
        ivs,
        reaching_from(ivs, ivs.len() as int, start),
        ivs.len() as int,
        start,
        end,
    );
}

} // verus!

verus! {

/// The frame rate a recording uses: a stored 15, 30 or 60 is kept, anything
/// else falls back to 30.
pub fn supported_fps(fps: u32) -> (r: u32)
    ensures
        r == (if fps == 15 || fps == 30 || fps == 60 {
            fps
        } else {
            30
        }),
{
    if fps == 15 || fps == 30 || fps == 60 {
        fps
    } else {
        30
    }
}

} // verus!

verus! {

/// A new clock's timeline is consistent, and the controls keep it so (see
/// `lemma_controls_keep_the_timeline_consistent`).
pub proof fn lemma_new_clock_is_consistent()
    ensures
        timeline_wf(Seq::<ActiveInterval>::empty()),
{
}

/// While recording, active time advances exactly as host time does (until
/// it would exceed 64 bits of nanoseconds).
pub proof fn lemma_running_time_counts_fully(ivs: Seq<ActiveInterval>, n1: u64, n2: u64)
    requires
        timeline_running(ivs),
        ivs.last().start <= n1 <= n2,
        ivs.last().offset + (n2 - ivs.last().start) <= u64::MAX,
    ensures
        timeline_elapsed(ivs, n2) - timeline_elapsed(ivs, n1) == n2 - n1,
{
}

/// Interval `i` holds output position `p` at host time `t`.
pub open spec fn covers(i: ActiveInterval, p: u64, t: u64) -> bool {
    &&& i.offset <= p
    &&& t == i.start + (p - i.offset)
    &&& match i.end {
        Some(e) => t < e,
        None => true,
    }
}

proof fn lemma_instant_at_found(ivs: Seq<ActiveInterval>, p: u64, t: u64)
    requires
        timeline_instant_at(ivs, p) == Some(t),
    ensures
        exists|k: int| 0 <= k < ivs.len() && covers(#[trigger] ivs[k], p, t),
    decreases ivs.len(),
{
    let i = ivs.last();
    let u = i.start + (p - i.offset);
    if p >= i.offset && u <= u64::MAX && match i.end {
        Some(e) => u < e,
        None => true,
    } {
        assert(covers(ivs[ivs.len() - 1], p, t));
    } else {
        lemma_instant_at_found(ivs.drop_last(), p, t);
        let k = choose|k: int| 0 <= k < ivs.drop_last().len() && covers(ivs.drop_last()[k], p, t);
        assert(ivs[k] == ivs.drop_last()[k]);
    }
}

proof fn lemma_covered_is_found(ivs: Seq<ActiveInterval>, k: int, p: u64, t: u64)
    requires
        timeline_wf(ivs),
        0 <= k < ivs.len(),
        covers(ivs[k], p, t),
    ensures
        timeline_instant_at(ivs, p) == Some(t),
{
    assert forall|j: int| k + 1 <= j < ivs.len() implies #[trigger] ivs[j].offset > p by {
        lemma_offsets_grow(ivs, k, j);
    }
    lemma_instant_at_skips_later(ivs, k + 1, p);
    let pre = ivs.subrange(0, k + 1);
    assert(pre.last() == ivs[k]);
}

/// On a consistent timeline the output position `p` maps to host time `t`
/// exactly when some active interval holds `p` at `t`, and at most one
/// interval holds any position.
pub proof fn lemma_instant_at_is_the_covering_interval(ivs: Seq<ActiveInterval>, p: u64, t: u64)
    requires
        timeline_wf(ivs),
    ensures
        timeline_instant_at(ivs, p) == Some(t) <==> exists|k: int|
            0 <= k < ivs.len() && covers(#[trigger] ivs[k], p, t),
        forall|j: int, k: int, t1: u64, t2: u64|
            0 <= j < k < ivs.len() && #[trigger] covers(ivs[j], p, t1) ==> !#[trigger] covers(
                ivs[k],
                p,
                t2,
            ),
{
    if timeline_instant_at(ivs, p) == Some(t) {
        lemma_instant_at_found(ivs, p, t);
    }
    if exists|k: int| 0 <= k < ivs.len() && covers(#[trigger] ivs[k], p, t) {
        let k = choose|k: int| 0 <= k < ivs.len() && covers(#[trigger] ivs[k], p, t);
        lemma_covered_is_found(ivs, k, p, t);
    }
    assert forall|j: int, k: int, t1: u64, t2: u64|
        0 <= j < k < ivs.len() && #[trigger] covers(ivs[j], p, t1) implies !#[trigger] covers(
        ivs[k],
        p,
        t2,
    ) by {
        lemma_offsets_grow(ivs, j, k);
    }
}

/// Once a consistent timeline is paused, no output position from its
/// frozen active time on maps to a host time.
pub proof fn lemma_paused_timeline_has_no_later_slot(ivs: Seq<ActiveInterval>, now: u64, p: u64)
    requires
        timeline_wf(ivs),
        !timeline_running(ivs),
        ivs.len() > 0 ==> ivs.last().offset + (ivs.last().end->0 - ivs.last().start) <= u64::MAX,
        p >= timeline_elapsed(ivs, now),
    ensures
        timeline_instant_at(ivs, p) is None,
{
    if ivs.len() > 0 {
        if timeline_instant_at(ivs, p) is Some {
            let t = timeline_instant_at(ivs, p)->0;
            lemma_instant_at_found(ivs, p, t);
            let k = choose|k: int| 0 <= k < ivs.len() && covers(#[trigger] ivs[k], p, t);
            if k < ivs.len() - 1 {
                lemma_offsets_grow(ivs, k, ivs.len() - 1);
            }
        }
    }
}

} // verus!

verus! {

/// Interval `i` is closed and ends no later than host time `t`.
pub open spec fn ends_by(i: ActiveInterval, t: u64) -> bool {
    match i.end {
        Some(e) => e <= t,
        None => false,
    }
}

/// Each interval starts no earlier than the previous one ended, as it does
/// when the controls are given nondecreasing host times.
pub open spec fn timeline_ordered(ivs: Seq<ActiveInterval>) -> bool {
    forall|k: int|
        0 <= k < ivs.len() - 1 ==> ends_by(#[trigger] ivs[k], ivs[k + 1].start)
}

/// `now` is no earlier than the end of a paused timeline's last interval.
pub open spec fn resumes_after_end(ivs: Seq<ActiveInterval>, now: u64) -> bool {
    ivs.len() > 0 && ivs.last().end is Some ==> ivs.last().end->0 <= now
}

/// Starting, beginning and pausing keep the order; resuming keeps it when
/// given a host time no earlier than the last interval's end.
pub proof fn lemma_controls_keep_the_timeline_ordered(ivs: Seq<ActiveInterval>, now: u64)
    requires
        timeline_ordered(ivs),
        timeline_wf(ivs),
    ensures
        timeline_ordered(timeline_start(now)),
        timeline_ordered(timeline_begin(ivs, now)),
        timeline_ordered(timeline_pause(ivs, now)),
        resumes_after_end(ivs, now) ==> timeline_ordered(timeline_resume(ivs, now)),
{
    let p = timeline_pause(ivs, now);
    assert forall|k: int| 0 <= k < p.len() - 1 implies ends_by(#[trigger] p[k], p[k + 1].start) by {
        assert(ends_by(ivs[k], ivs[k + 1].start));
        if k + 1 == ivs.len() - 1 {
            assert(continues(ivs, k));
        }
    }
    let r = timeline_resume(ivs, now);
    if !timeline_running(ivs) && ivs.len() > 0 && resumes_after_end(ivs, now) {
        assert forall|k: int| 0 <= k < r.len() - 1 implies ends_by(#[trigger] r[k], r[k + 1].start) by {
            if k < ivs.len() - 1 {
                assert(ends_by(ivs[k], ivs[k + 1].start));
            }
        }
    }
}

proof fn lemma_ends_before_later_starts(ivs: Seq<ActiveInterval>, j: int, k: int)
    requires
        timeline_wf(ivs),
        timeline_ordered(ivs),
        0 <= j < k < ivs.len(),
    ensures
        ends_by(ivs[j], ivs[k].start),
    decreases k - j,
{
    assert(ends_by(ivs[j], ivs[j + 1].start));
    if k > j + 1 {
        lemma_ends_before_later_starts(ivs, j + 1, k);
        assert(continues(ivs, j + 1));
    }
}

/// On a consistent, ordered timeline later output positions map to later
/// host times.
pub proof fn lemma_instant_at_increases(ivs: Seq<ActiveInterval>, p1: u64, p2: u64)
    requires
        timeline_wf(ivs),
        timeline_ordered(ivs),
        p1 < p2,
        timeline_instant_at(ivs, p1) is Some,
        timeline_instant_at(ivs, p2) is Some,
    ensures
        timeline_instant_at(ivs, p1)->0 < timeline_instant_at(ivs, p2)->0,
{
    let t1 = timeline_instant_at(ivs, p1)->0;
    let t2 = timeline_instant_at(ivs, p2)->0;
    lemma_instant_at_found(ivs, p1, t1);
    lemma_instant_at_found(ivs, p2, t2);
    let k1 = choose|k: int| 0 <= k < ivs.len() && covers(#[trigger] ivs[k], p1, t1);
    let k2 = choose|k: int| 0 <= k < ivs.len() && covers(#[trigger] ivs[k], p2, t2);
    if k1 < k2 {
        lemma_ends_before_later_starts(ivs, k1, k2);
    } else if k1 > k2 {
        lemma_offsets_grow(ivs, k2, k1);
    }
}

proof fn lemma_slices_between_sorted(
    ivs: Seq<ActiveInterval>,
    lo: int,
    hi: int,
    start: u64,
    end: u64,
)
    requires
        timeline_wf(ivs),
        timeline_ordered(ivs),
        0 <= lo,
        hi <= ivs.len(),
    ensures
        forall|a: int, b: int|
            0 <= a < b < slices_between(ivs, lo, hi, start, end).len() ==> (#[trigger] slices_between(
                ivs,
                lo,
                hi,
                start,
                end,
            )[a]).end <= (#[trigger] slices_between(ivs, lo, hi, start, end)[b]).start,
        forall|a: int|
            0 <= a < slices_between(ivs, lo, hi, start, end).len() ==> (#[trigger] slices_between(
                ivs,
                lo,
                hi,
                start,
                end,
            )[a]).end <= (if hi > lo {
                match ivs[hi - 1].end {
                    Some(e) => e as int,
                    None => end as int,
                }
            } else {
                0
            }),
    decreases hi - lo,
{
    if hi > lo {
        lemma_slices_between_sorted(ivs, lo, hi - 1, start, end);
        let prefix = slices_between(ivs, lo, hi - 1, start, end);
        let piece = slice_of(ivs[hi - 1], start, end);
        let all = slices_between(ivs, lo, hi, start, end);
        assert(all == prefix + piece);
        if hi - 1 > lo {
            lemma_ends_before_later_starts(ivs, hi - 2, hi - 1);
            assert(continues(ivs, hi - 2));
        }
        assert forall|a: int, b: int| 0 <= a < b < all.len() implies (#[trigger] all[a]).end
            <= (#[trigger] all[b]).start by {
            if b >= prefix.len() {
                assert(all[b] == piece[b - prefix.len()]);
                if a < prefix.len() {
                    assert(all[a] == prefix[a]);
                }
            } else {
                assert(all[a] == prefix[a] && all[b] == prefix[b]);
            }
        }
        assert forall|a: int| 0 <= a < all.len() implies (#[trigger] all[a]).end <= (match ivs[hi
            - 1].end {
            Some(e) => e as int,
            None => end as int,
        }) by {
            if a >= prefix.len() {
                assert(all[a] == piece[a - prefix.len()]);
            } else {
                assert(all[a] == prefix[a]);
                lemma_slices_between_inside(ivs, lo, hi - 1, start, end);
                assert(prefix[a].end <= end);
                if hi - 1 > lo {
                    assert(continues(ivs, hi - 2));
                    if hi - 1 < ivs.len() - 1 {
                        assert(continues(ivs, hi - 1));
                    }
                }
            }
        }
    }
}

/// On a consistent, ordered timeline the active parts of a host span come
/// in time order and do not overlap: each ends no later than the next begins.
pub proof fn lemma_active_slices_are_sorted_and_disjoint(
    ivs: Seq<ActiveInterval>,
    start: u64,
    end: u64,
)
    requires
        timeline_wf(ivs),
        timeline_ordered(ivs),
    ensures
        forall|a: int, b: int|
            0 <= a < b < timeline_slices(ivs, start, end).len() ==> (#[trigger] timeline_slices(
                ivs,
                start,
                end,
            )[a]).end <= (#[trigger] timeline_slices(ivs, start, end)[b]).start,
{
    lemma_reaching_from_bounds(ivs, ivs.len() as int, start);
    lemma_slices_between_sorted(
        ivs,
        reaching_from(ivs, ivs.len() as int, start),
        ivs.len() as int,
        start,
        end,
    );
}

} // verus!

verus! {

/// Host time `t` lies in an active interval of the timeline.
pub open spec fn active_at(ivs: Seq<ActiveInterval>, t: u64) -> bool {
    exists|k: int|
        0 <= k < ivs.len() && ivs[k].start <= t && match #[trigger] ivs[k].end {
            Some(e) => t < e,
            None => true,
        }
}

proof fn lemma_piece_in_slices(
    ivs: Seq<ActiveInterval>,
    lo: int,
    hi: int,
    k: int,
    start: u64,
    end: u64,
)
    requires
        0 <= lo <= k < hi <= ivs.len(),
        slice_of(ivs[k], start, end).len() > 0,
    ensures
        exists|a: int|
            0 <= a < slices_between(ivs, lo, hi, start, end).len() && #[trigger] slices_between(
                ivs,
                lo,
                hi,
                start,
                end,
            )[a] == slice_of(ivs[k], start, end)[0],
    decreases hi - lo,
{
    let all = slices_between(ivs, lo, hi, start, end);
    let prefix = slices_between(ivs, lo, hi - 1, start, end);
    let piece = slice_of(ivs[hi - 1], start, end);
    assert(all == prefix + piece);
    if k == hi - 1 {
        assert(all[prefix.len() as int] == piece[0]);
    } else {
        lemma_piece_in_slices(ivs, lo, hi - 1, k, start, end);
        let a = choose|a: int| 0 <= a < prefix.len() && #[trigger] prefix[a] == slice_of(
            ivs[k],
            start,
            end,
        )[0];
        assert(all[a] == prefix[a]);
    }
}

proof fn lemma_reaching_from_skips(ivs: Seq<ActiveInterval>, n: int, start: u64)
    requires
        0 <= n <= ivs.len(),
    ensures
        forall|j: int| reaching_from(ivs, n, start) <= j < n ==> reaches(#[trigger] ivs[j], start),
        reaching_from(ivs, n, start) > 0 ==> !reaches(ivs[reaching_from(ivs, n, start) - 1], start),
    decreases n,
{
    if n > 0 && reaches(ivs[n - 1], start) {
        lemma_reaching_from_skips(ivs, n - 1, start);
    }
}

/// On a consistent, ordered timeline the active parts of a host span cover
/// all of its active time: every host time in `[start, end)` that lies in an
/// active interval lies in one of them.
pub proof fn lemma_active_slices_cover_the_active_span(
    ivs: Seq<ActiveInterval>,
    start: u64,
    end: u64,
    t: u64,
)
    requires
        timeline_wf(ivs),
        timeline_ordered(ivs),
        start <= t < end,
        active_at(ivs, t),
    ensures
        exists|a: int|
            0 <= a < timeline_slices(ivs, start, end).len() && (#[trigger] timeline_slices(
                ivs,
                start,
                end,
            )[a]).start <= t && t < timeline_slices(ivs, start, end)[a].end,
{
    let n = ivs.len() as int;
    let lo = reaching_from(ivs, n, start);
    lemma_reaching_from_bounds(ivs, n, start);
    lemma_reaching_from_skips(ivs, n, start);
    let k = choose|k: int|
        0 <= k < ivs.len() && ivs[k].start <= t && match #[trigger] ivs[k].end {
            Some(e) => t < e,
            None => true,
        };
    if k < lo {
        // Interval `lo - 1` ends by `start`, and every earlier one ends before it starts.
        if k < lo - 1 {
            lemma_ends_before_later_starts(ivs, k, lo - 1);
            if lo - 1 < n - 1 {
                assert(continues(ivs, lo - 1));
            }
        }
        assert(false);
    }
    let piece = slice_of(ivs[k], start, end);
    assert(piece.len() > 0);
    assert(piece[0].start <= t && t < piece[0].end);
    lemma_piece_in_slices(ivs, lo, n, k, start, end);
    let all = timeline_slices(ivs, start, end);
    let a = choose|a: int| 0 <= a < all.len() && #[trigger] all[a] == piece[0];
    assert(all[a].start <= t && t < all[a].end);
}

} // verus!

verus! {

proof fn lemma_slices_between_active(
    ivs: Seq<ActiveInterval>,
    lo: int,
    hi: int,
    start: u64,
    end: u64,
    a: int,
    t: u64,
)
    requires
        0 <= lo,
        hi <= ivs.len(),
        0 <= a < slices_between(ivs, lo, hi, start, end).len(),
        slices_between(ivs, lo, hi, start, end)[a].start <= t < slices_between(
            ivs,
            lo,
            hi,
            start,
            end,
        )[a].end,
    ensures
        active_at(ivs, t),
    decreases hi - lo,
{
    let all = slices_between(ivs, lo, hi, start, end);
    let prefix = slices_between(ivs, lo, hi - 1, start, end);
    let piece = slice_of(ivs[hi - 1], start, end);
    assert(all == prefix + piece);
    if a >= prefix.len() {
        assert(all[a] == piece[a - prefix.len()]);
        let k = hi - 1;
        assert(ivs[k].start <= t && match ivs[k].end {
            Some(e) => t < e,
            None => true,
        });
    } else {
        assert(all[a] == prefix[a]);
        lemma_slices_between_active(ivs, lo, hi - 1, start, end, a, t);
    }
}

/// Every host time inside an active part of a span lies in an active
/// interval: the parts hold active time only.
pub proof fn lemma_active_slices_hold_only_active_time(
    ivs: Seq<ActiveInterval>,
    start: u64,
    end: u64,
    a: int,
    t: u64,
)
    requires
        0 <= a < timeline_slices(ivs, start, end).len(),
        timeline_slices(ivs, start, end)[a].start <= t < timeline_slices(ivs, start, end)[a].end,
    ensures
        active_at(ivs, t),
{
    lemma_reaching_from_bounds(ivs, ivs.len() as int, start);
    lemma_slices_between_active(
        ivs,
        reaching_from(ivs, ivs.len() as int, start),
        ivs.len() as int,
        start,
        end,
        a,
        t,
    );
}

} // verus!

verus! {

/// While recording, active time advances with host time, saturating at the
/// largest 64-bit count of nanoseconds instead of wrapping.
pub proof fn lemma_running_time_counts_saturating(ivs: Seq<ActiveInterval>, n1: u64, n2: u64)
    requires
        timeline_running(ivs),
        ivs.last().start <= n1 <= n2,
    ensures
        timeline_elapsed(ivs, n2) == sat_add(timeline_elapsed(ivs, n1), (n2 - n1) as u64),
{
}

/// Beginning a started timeline changes nothing; beginning an empty one
/// starts it.
pub proof fn lemma_begin_only_starts_an_empty_timeline(ivs: Seq<ActiveInterval>, now: u64)
    ensures
        ivs.len() > 0 ==> timeline_begin(ivs, now) == ivs,
        ivs.len() == 0 ==> timeline_begin(ivs, now) == timeline_start(now),
{
}

/// Resuming a paused timeline at `t` continues from the active time reached
/// at `t` without a jump, counts host time from then on (saturating), keeps
/// every earlier output slot where it was, and maps the first new slot to
/// `t`. Resuming a running timeline changes nothing.
pub proof fn lemma_resume_continues_from_the_pause(
    ivs: Seq<ActiveInterval>,
    t: u64,
    n: u64,
    p: u64,
)
    ensures
        timeline_running(ivs) ==> timeline_resume(ivs, t) == ivs,
        !timeline_running(ivs) ==> {
            let r = timeline_resume(ivs, t);
            let e = timeline_elapsed(ivs, t);
            &&& timeline_running(r)
            &&& timeline_elapsed(r, t) == e
            &&& n >= t ==> timeline_elapsed(r, n) == sat_add(e, (n - t) as u64)
            &&& p < e ==> timeline_instant_at(r, p) == timeline_instant_at(ivs, p)
            &&& timeline_instant_at(r, e) == Some(t)
        },
{
    if !timeline_running(ivs) {
        let r = timeline_resume(ivs, t);
        assert(r.drop_last() =~= ivs);
    }
}

/// Output time never runs ahead of the host time passed since the first
/// start: each interval's offset is at most the host time between the first
/// interval's start and its own.
pub open spec fn offsets_fit(ivs: Seq<ActiveInterval>) -> bool {
    forall|k: int| 0 <= k < ivs.len() ==> ivs[0].start + #[trigger] ivs[k].offset <= ivs[k].start
}

/// The timeline the controls build when given nondecreasing host times:
/// consistent, ordered, and with offsets that fit the host time passed.
pub open spec fn timeline_sound(ivs: Seq<ActiveInterval>) -> bool {
    timeline_wf(ivs) && timeline_ordered(ivs) && offsets_fit(ivs)
}

/// A new clock's timeline is sound, starting makes a sound timeline, and
/// beginning, pausing and resuming keep it sound as long as resuming is
/// given a host time no earlier than the pause; a sound paused timeline can
/// always be resumed without saturating.
pub proof fn lemma_controls_keep_the_timeline_sound(ivs: Seq<ActiveInterval>, now: u64)
    ensures
        timeline_sound(Seq::<ActiveInterval>::empty()),
        timeline_sound(timeline_start(now)),
        timeline_sound(ivs) ==> timeline_sound(timeline_begin(ivs, now)),
        timeline_sound(ivs) ==> timeline_sound(timeline_pause(ivs, now)),
        timeline_sound(ivs) ==> resumable(ivs),
        timeline_sound(ivs) && resumes_after_end(ivs, now) ==> timeline_sound(
            timeline_resume(ivs, now),
        ),
{
    let st = timeline_start(now);
    assert(offsets_fit(st)) by {
        assert forall|k: int| 0 <= k < st.len() implies st[0].start + #[trigger] st[k].offset
            <= st[k].start by {
            assert(k == 0);
        }
    }
    lemma_controls_keep_the_timeline_consistent(Seq::<ActiveInterval>::empty(), now);
    lemma_controls_keep_the_timeline_ordered(Seq::<ActiveInterval>::empty(), now);
    if timeline_sound(ivs) {
        lemma_controls_keep_the_timeline_consistent(ivs, now);
        lemma_controls_keep_the_timeline_ordered(ivs, now);
        let p = timeline_pause(ivs, now);
        assert forall|k: int| 0 <= k < p.len() implies p[0].start + #[trigger] p[k].offset
            <= p[k].start by {
            assert(ivs[0].start + ivs[k].offset <= ivs[k].start);
            assert(p[k].offset == ivs[k].offset && p[k].start == ivs[k].start);
            assert(p[0].start == ivs[0].start);
        }
        if ivs.len() > 0 && ivs.last().end is Some {
            let last = ivs.last();
            assert(ivs[0].start + ivs[ivs.len() - 1].offset <= ivs[ivs.len() - 1].start);
            assert(last.offset + (last.end->0 - last.start) <= last.end->0 - ivs[0].start);
        }
        if resumes_after_end(ivs, now) && !timeline_running(ivs) {
            let r = timeline_resume(ivs, now);
            if ivs.len() > 0 {
                let last = ivs.last();
                assert(ivs[0].start + ivs[ivs.len() - 1].offset <= ivs[ivs.len() - 1].start);
                assert(timeline_elapsed(ivs, now) == last.offset + (last.end->0 - last.start));
            }
            assert forall|k: int| 0 <= k < r.len() implies r[0].start + #[trigger] r[k].offset
                <= r[k].start by {
                if k < ivs.len() {
                    assert(ivs[0].start + ivs[k].offset <= ivs[k].start);
                    assert(r[k] == ivs[k]);
                }
                if ivs.len() > 0 {
                    assert(r[0] == ivs[0]);
                }
            }
        }
    }
}

/// On a sound timeline active time is the host time counted while running:
/// from the last control on, it never exceeds the host time passed since
/// the first start, it never decreases, while recording it advances exactly
/// as host time does (with no upper limit other than the host clock's own),
/// and while paused it stands still.
pub proof fn lemma_sound_running_time_counts_exactly(
    ivs: Seq<ActiveInterval>,
    n1: u64,
    n2: u64,
)
    requires
        timeline_sound(ivs),
        ivs.len() > 0,
        ivs.last().start <= n1 <= n2,
        resumes_after_end(ivs, n1),
    ensures
        timeline_elapsed(ivs, n1) <= n1 - ivs[0].start,
        timeline_elapsed(ivs, n1) <= timeline_elapsed(ivs, n2),
        timeline_running(ivs) ==> timeline_elapsed(ivs, n2) - timeline_elapsed(ivs, n1) == n2
            - n1,
        !timeline_running(ivs) ==> timeline_elapsed(ivs, n2) == timeline_elapsed(ivs, n1),
{
    let k = ivs.len() - 1;
    let last = ivs[k];
    assert(ivs[0].start + ivs[k].offset <= ivs[k].start);
    assert(last.offset + (n2 - last.start) <= u64::MAX);
    match last.end {
        Some(e) => {
            assert(last.start <= e);
            assert(timeline_elapsed(ivs, n1) == last.offset + (e - last.start));
            assert(timeline_elapsed(ivs, n2) == last.offset + (e - last.start));
        },
        None => {
            assert(timeline_elapsed(ivs, n1) == last.offset + (n1 - last.start));
            assert(timeline_elapsed(ivs, n2) == last.offset + (n2 - last.start));
        },
    }
}

/// Pausing a running timeline at `t` stops it at the active time reached at
/// `t` (or at the open interval's start, if `t` is earlier): from then on
/// active time stands still at that value and, on a sound timeline, no
/// position at or beyond it maps to a host time. Pausing a timeline that
/// never started, or pausing again, changes nothing.
pub proof fn lemma_pause_stops_the_timeline(ivs: Seq<ActiveInterval>, t: u64, n: u64, p: u64)
    ensures
        timeline_pause(Seq::<ActiveInterval>::empty(), t) == Seq::<ActiveInterval>::empty(),
        timeline_pause(timeline_pause(ivs, t), n) == timeline_pause(ivs, t),
        timeline_running(ivs) ==> {
            let start = ivs.last().start;
            let stop = if t >= start {
                t
            } else {
                start
            };
            let r = timeline_pause(ivs, t);
            &&& !timeline_running(r)
            &&& timeline_elapsed(r, n) == timeline_elapsed(ivs, stop)
            &&& timeline_sound(ivs) && p >= timeline_elapsed(r, n) ==> timeline_instant_at(r, p) is None
        },
{
    lemma_pause_and_resume_are_idempotent(ivs, t, n);
    if timeline_running(ivs) {
        let r = timeline_pause(ivs, t);
        assert(r.last().end is Some);
        if timeline_sound(ivs) && p >= timeline_elapsed(r, n) {
            lemma_controls_keep_the_timeline_sound(ivs, t);
            lemma_controls_keep_the_timeline_sound(r, t);
            lemma_paused_timeline_has_no_later_slot(r, n, p);
        }
    }
}

/// Once the countdown is over it stays over: later ticks keep returning
/// nothing.
pub proof fn lemma_countdown_stays_over(digit: u8, shown_at: Option<u64>, n1: u64, n2: u64)
    requires
        n1 <= n2,
        countdown_step(digit, shown_at, n1).0 is None,
    ensures
        ({
            let (_, d, shown) = countdown_step(digit, shown_at, n1);
            countdown_step(d, shown, n2).0 is None
        }),
{
}

} // verus!
