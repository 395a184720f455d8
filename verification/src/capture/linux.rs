//! Linux capture decisions: CLOCK_MONOTONIC and ALSA stream time, which
//! sources can be recorded, and which X11 windows discovery lists.
use super::clock::{distance, shift, shifted, ClockError};
use crate::model::SourceKind;
use crate::text::{
    contains_text, less_text, lowercase, lowercase_text, occurs_at, text_less, trim, trimmed,
};
use vstd::prelude::*;
use vstd::string::StrSliceExecFns;

verus! {

/// Linux: PipeWire header PTS and V4L2 MONOTONIC metadata share
/// CLOCK_MONOTONIC. The clock pairs one CLOCK_MONOTONIC reading (ns) with the
/// host time at which it was taken.
#[derive(Debug, Clone, Copy)]
pub struct HostClock {
    host: u64,
    nanos: i64,
}

/// How far in the future a converted timestamp may lie, in nanoseconds.
pub const FUTURE_TOLERANCE: u64 = 50_000_000;

/// Host time of a CLOCK_MONOTONIC timestamp, or the error the conversion
/// reports; `now` is the current host time.
pub open spec fn monotonic_host_time(host: u64, reference: i64, nanos: i64, now: u64) -> Result<
    u64,
    ClockError,
> {
    if nanos <= 0 {
        Err(ClockError::NoTimestamp)
    } else {
        match shifted(host, nanos - reference) {
            None => Err(ClockError::OutsideHostClock),
            Some(t) => if t <= now + FUTURE_TOLERANCE {
                Ok(t)
            } else {
                Err(ClockError::NotMonotonic)
            },
        }
    }
}

/// A CLOCK_MONOTONIC reading converts to 64-bit nanoseconds.
pub open spec fn monotonic_reading_fits(seconds: i64, nanoseconds: i64) -> bool {
    let scaled = seconds * 1_000_000_000;
    i64::MIN <= scaled <= i64::MAX && i64::MIN <= scaled + nanoseconds <= i64::MAX
}

impl HostClock {
    /// The host time of the reference reading.
    pub closed spec fn spec_host(&self) -> u64 {
        self.host
    }

    /// The reference CLOCK_MONOTONIC reading in nanoseconds.
    pub closed spec fn spec_nanos(&self) -> i64 {
        self.nanos
    }

    /// Pairs a CLOCK_MONOTONIC reading (`seconds`, `nanoseconds`) with the
    /// host time `host` at which it was taken.
    pub fn from_reading(host: u64, seconds: i64, nanoseconds: i64) -> (r: Result<Self, ClockError>)
        ensures
            monotonic_reading_fits(seconds, nanoseconds) ==> (r matches Ok(c) && c.spec_host()
                == host && c.spec_nanos() == seconds * 1_000_000_000 + nanoseconds),
            !monotonic_reading_fits(seconds, nanoseconds) ==> r == Err::<Self, ClockError>(
                ClockError::TimestampOverflow,
            ),
    {
        let scaled = match seconds.checked_mul(1_000_000_000) {
            Some(v) => v,
            None => return Err(ClockError::TimestampOverflow),
        };
        match scaled.checked_add(nanoseconds) {
            Some(nanos) => Ok(HostClock { host, nanos }),
            None => Err(ClockError::TimestampOverflow),
        }
    }

    /// Host time of the reference reading.
    pub fn host(&self) -> (r: u64)
        ensures
            r == self.spec_host(),
    {
        self.host
    }

    /// The reference reading in nanoseconds.
    pub fn nanos(&self) -> (r: i64)
        ensures
            r == self.spec_nanos(),
    {
        self.nanos
    }

    /// Acquisition time of a CLOCK_MONOTONIC timestamp; `now` is the current
    /// host time, used to reject timestamps from another clock.
    pub fn instant(&self, nanos: i64, now: u64) -> (r: Result<u64, ClockError>)
        ensures
            r == monotonic_host_time(self.spec_host(), self.spec_nanos(), nanos, now),
    {
        if nanos <= 0 {
            return Err(ClockError::NoTimestamp);
        }
        let delta = distance(nanos, self.nanos);
        let time = match shift(self.host, delta, nanos >= self.nanos) {
            Some(t) => t,
            None => return Err(ClockError::OutsideHostClock),
        };
        if time <= now.saturating_add(FUTURE_TOLERANCE) {
            Ok(time)
        } else {
            Err(ClockError::NotMonotonic)
        }
    }
}

/// ALSA stream times are relative to stream creation, not boot time. The
/// clock pairs one stream time (ns) with the host time at which it was read.
#[derive(Debug, Clone, Copy)]
pub struct AudioClock {
    host: u64,
    stream: i128,
}

/// Host time of a stream timestamp, or the error the conversion reports.
pub open spec fn stream_host_time(host: u64, reference: i128, stamp: i128) -> Result<u64, ClockError> {
    match shifted(host, stamp - reference) {
        Some(t) => Ok(t),
        None => Err(ClockError::TimestampOverflow),
    }
}

impl AudioClock {
    /// The host time of the reference reading.
    pub closed spec fn spec_host(&self) -> u64 {
        self.host
    }

    /// The reference stream time in nanoseconds.
    pub closed spec fn spec_stream(&self) -> i128 {
        self.stream
    }

    /// Pairs a stream time with the host time at which it was read.
    pub fn new(host: u64, stream: i128) -> (r: Self)
        ensures
            r.spec_host() == host,
            r.spec_stream() == stream,
    {
        AudioClock { host, stream }
    }

    /// Host time of a stream timestamp (nanoseconds on the stream's clock).
    pub fn instant(&self, stamp: i128) -> (r: Result<u64, ClockError>)
        ensures
            r == stream_host_time(self.spec_host(), self.spec_stream(), stamp),
    {
        let offset: i128 = match stamp.checked_sub(self.stream) {
            Some(o) => o,
            None => return Err(ClockError::TimestampOverflow),
        };
        if offset >= 0 {
            if offset > u64::MAX as i128 {
                return Err(ClockError::TimestampOverflow);
            }
            match self.host.checked_add(offset as u64) {
                Some(t) => Ok(t),
                None => Err(ClockError::TimestampOverflow),
            }
        } else {
            if offset < -(u64::MAX as i128) {
                return Err(ClockError::TimestampOverflow);
            }
            match self.host.checked_sub((-offset) as u64) {
                Some(t) => Ok(t),
                None => Err(ClockError::TimestampOverflow),
            }
        }
    }
}

/// The monotonic mapping likewise keeps the spacing of accepted timestamps.
pub proof fn lemma_monotonic_mapping_preserves_spacing(
    host: u64,
    reference: i64,
    a: i64,
    b: i64,
    now: u64,
)
    requires
        monotonic_host_time(host, reference, a, now) is Ok,
        monotonic_host_time(host, reference, b, now) is Ok,
    ensures
        monotonic_host_time(host, reference, b, now)->Ok_0 - monotonic_host_time(
            host,
            reference,
            a,
            now,
        )->Ok_0 == b - a,
{
}

/// Discovery never opens a portal dialog, so listing sources needs no
/// permission.
pub fn screen_permission() -> (r: bool)
    ensures
        r,
{
    true
}

/// Why Linux refuses a capture source.
#[derive(Debug, Clone, Copy, PartialEq, Eq, Structural)]
pub enum LinuxCaptureError {
    /// Whole-display capture would include the recorder's own controls.
    DisplayUnsupported,
}

impl LinuxCaptureError {
    /// Message for the user.
    pub fn message(&self) -> (r: &'static str)
        ensures
            r@ == "Linux supports isolated window recording; choose a window or media file"@,
    {
        match self {
            LinuxCaptureError::DisplayUnsupported => {
                "Linux supports isolated window recording; choose a window or media file"
            },
        }
    }
}

/// Linux records isolated windows only: a display source is refused.
pub fn check_source(kind: SourceKind) -> (r: Result<(), LinuxCaptureError>)
    ensures
        kind == SourceKind::Window ==> r is Ok,
        kind == SourceKind::Display ==> r == Err::<(), LinuxCaptureError>(
            LinuxCaptureError::DisplayUnsupported,
        ),
{
    match kind {
        SourceKind::Window => Ok(()),
        SourceKind::Display => Err(LinuxCaptureError::DisplayUnsupported),
    }
}

/// A window belongs to the recorder when its `_NET_WM_PID` is the
/// recorder's process id, or its `WM_CLASS` names the recorder in any case.
pub open spec fn recorder_window(pid: Option<u32>, own_pid: u32, class: Seq<char>) -> bool {
    pid == Some(own_pid) || exists|i: int| occurs_at(lowercase_text(class), "loomik"@, i)
}

/// Whether a window with process id `pid` and class text `class` is one of
/// the recorder's own windows, which are never listed or recorded.
pub fn own_window(pid: Option<u32>, own_pid: u32, class: &str) -> (r: bool)
    ensures
        r == recorder_window(pid, own_pid, class@),
{
    if pid == Some(own_pid) {
        return true;
    }
    let lower = lowercase(class);
    contains_text(lower.as_str(), "loomik")
}

/// What discovery reads of one X11 client window: its id, `_NET_WM_PID`
/// (when set), `WM_CLASS`, whether it is viewable, its size, and its
/// `_NET_WM_NAME` and `WM_NAME` titles.
pub struct WindowInfo {
    pub id: u32,
    pub pid: Option<u32>,
    pub class: String,
    pub viewable: bool,
    pub width: u16,
    pub height: u16,
    pub utf8_title: String,
    pub legacy_title: String,
}

/// A window offered for recording, under its trimmed title.
pub struct ListedWindow {
    pub id: u32,
    pub name: String,
    pub width: u16,
    pub height: u16,
}

/// A listed window as plain values: id, name, width and height.
pub open spec fn listed_view(w: ListedWindow) -> (u32, Seq<char>, u16, u16) {
    (w.id, w.name@, w.width, w.height)
}

/// The title a window is listed under: `_NET_WM_NAME` unless it is empty,
/// then `WM_NAME`, without surrounding white space.
pub open spec fn window_title(w: WindowInfo) -> Seq<char> {
    if w.utf8_title@.len() == 0 {
        trimmed(w.legacy_title@)
    } else {
        trimmed(w.utf8_title@)
    }
}

/// A window is listed unless it is the recorder's own, not viewable,
/// smaller than 100 by 60, or untitled.
pub open spec fn window_listed(w: WindowInfo, own_pid: u32) -> bool {
    &&& !recorder_window(w.pid, own_pid, w.class@)
    &&& w.viewable
    &&& w.width >= 100 && w.height >= 60
    &&& window_title(w).len() > 0
}

/// The listed windows in discovery order.
pub open spec fn window_entries(ws: Seq<WindowInfo>, own_pid: u32) -> Seq<
    (u32, Seq<char>, u16, u16),
>
    decreases ws.len(),
{
    if ws.len() == 0 {
        Seq::empty()
    } else {
        let before = window_entries(ws.drop_last(), own_pid);
        let w = ws.last();
        if window_listed(w, own_pid) {
            before.push((w.id, window_title(w), w.width, w.height))
        } else {
            before
        }
    }
}

/// Where a window named `name` enters a list sorted by name: before the
/// first entry whose name sorts after it, so equal names keep their order.
pub open spec fn name_position(sorted: Seq<(u32, Seq<char>, u16, u16)>, name: Seq<char>) -> nat
    decreases sorted.len(),
{
    if sorted.len() == 0 {
        0
    } else if text_less(name, sorted[0].1) {
        0
    } else {
        1 + name_position(sorted.drop_first(), name)
    }
}

/// The entries sorted by name, stably: each entry goes in after the earlier
/// entries whose names do not sort after it.
pub open spec fn sorted_by_name(entries: Seq<(u32, Seq<char>, u16, u16)>) -> Seq<
    (u32, Seq<char>, u16, u16),
>
    decreases entries.len(),
{
    if entries.len() == 0 {
        Seq::empty()
    } else {
        let before = sorted_by_name(entries.drop_last());
        before.insert(name_position(before, entries.last().1) as int, entries.last())
    }
}

/// The first index past the entries whose names do not sort after `name`.
proof fn lemma_name_position(sorted: Seq<(u32, Seq<char>, u16, u16)>, name: Seq<char>, k: int)
    requires
        0 <= k <= sorted.len(),
        forall|j: int| 0 <= j < k ==> !text_less(name, #[trigger] sorted[j].1),
        k == sorted.len() || text_less(name, sorted[k].1),
    ensures
        name_position(sorted, name) == k,
    decreases k,
{
    if k > 0 {
        assert(!text_less(name, sorted[0].1));
        let rest = sorted.drop_first();
        assert forall|j: int| 0 <= j < k - 1 implies !text_less(name, #[trigger] rest[j].1) by {
            assert(rest[j] == sorted[j + 1]);
        }
        if k < sorted.len() {
            assert(rest[k - 1] == sorted[k]);
        }
        lemma_name_position(rest, name, k - 1);
    }
}

/// Names never sort before themselves.
proof fn lemma_text_less_irreflexive(a: Seq<char>)
    ensures
        !text_less(a, a),
    decreases a.len(),
{
    if a.len() > 0 {
        lemma_text_less_irreflexive(a.drop_first());
    }
}

/// Of two names, at most one sorts before the other.
proof fn lemma_text_less_asymmetric(a: Seq<char>, b: Seq<char>)
    ensures
        !(text_less(a, b) && text_less(b, a)),
    decreases a.len(),
{
    if a.len() > 0 && b.len() > 0 && a[0] == b[0] {
        lemma_text_less_asymmetric(a.drop_first(), b.drop_first());
    }
}

/// Two different names are ordered one way or the other.
proof fn lemma_text_less_total(a: Seq<char>, b: Seq<char>)
    ensures
        a == b || text_less(a, b) || text_less(b, a),
    decreases a.len(),
{
    if a.len() > 0 && b.len() > 0 && a[0] == b[0] {
        lemma_text_less_total(a.drop_first(), b.drop_first());
        if a.drop_first() == b.drop_first() {
            assert forall|k: int| 0 <= k < a.len() implies a[k] == b[k] by {
                if k > 0 {
                    assert(a[k] == a.drop_first()[k - 1]);
                    assert(b[k] == b.drop_first()[k - 1]);
                }
            }
            assert(a =~= b);
        }
    } else if a.len() == 0 && b.len() == 0 {
        assert(a =~= b);
    } else if a.len() > 0 && b.len() > 0 {
        let (x, y) = (a[0], b[0]);
        if (x as u32) == (y as u32) {
            vstd::utf8::char_u32_cast(x, x as u32);
            vstd::utf8::char_u32_cast(y, x as u32);
        }
    }
}

/// Sorting before is transitive.
proof fn lemma_text_less_transitive(a: Seq<char>, b: Seq<char>, c: Seq<char>)
    requires
        text_less(a, b),
        text_less(b, c),
    ensures
        text_less(a, c),
    decreases a.len(),
{
    if a.len() > 0 && a[0] == b[0] && b[0] == c[0] {
        lemma_text_less_transitive(a.drop_first(), b.drop_first(), c.drop_first());
    }
}

/// No later entry's name sorts before an earlier one's.
pub open spec fn names_sorted(entries: Seq<(u32, Seq<char>, u16, u16)>) -> bool {
    forall|i: int, j: int|
        0 <= i < j < entries.len() ==> !text_less(#[trigger] entries[j].1, #[trigger] entries[i].1)
}

/// What `name_position` finds: the entries before it do not sort after the
/// name, and the entry at it does.
proof fn lemma_name_position_bounds(sorted: Seq<(u32, Seq<char>, u16, u16)>, name: Seq<char>)
    ensures
        name_position(sorted, name) <= sorted.len(),
        forall|j: int|
            0 <= j < name_position(sorted, name) ==> !text_less(name, #[trigger] sorted[j].1),
        name_position(sorted, name) < sorted.len() ==> text_less(
            name,
            sorted[name_position(sorted, name) as int].1,
        ),
    decreases sorted.len(),
{
    if sorted.len() > 0 && !text_less(name, sorted[0].1) {
        let rest = sorted.drop_first();
        lemma_name_position_bounds(rest, name);
        assert forall|j: int| 0 <= j < name_position(sorted, name) implies !text_less(
            name,
            #[trigger] sorted[j].1,
        ) by {
            if j > 0 {
                assert(sorted[j] == rest[j - 1]);
            }
        }
        if name_position(sorted, name) < sorted.len() {
            assert(sorted[name_position(sorted, name) as int] == rest[name_position(rest, name) as int]);
        }
    }
}

/// Stable insertion yields entries sorted by name.
proof fn lemma_sorted_by_name_is_sorted(entries: Seq<(u32, Seq<char>, u16, u16)>)
    ensures
        names_sorted(sorted_by_name(entries)),
        sorted_by_name(entries).len() == entries.len(),
    decreases entries.len(),
{
    if entries.len() > 0 {
        let before = sorted_by_name(entries.drop_last());
        lemma_sorted_by_name_is_sorted(entries.drop_last());
        let e = entries.last();
        let p = name_position(before, e.1) as int;
        lemma_name_position_bounds(before, e.1);
        let r = before.insert(p, e);
        assert(r == sorted_by_name(entries));
        assert forall|i: int, j: int| 0 <= i < j < r.len() implies !text_less(
            #[trigger] r[j].1,
            #[trigger] r[i].1,
        ) by {
            if j < p {
                assert(r[i] == before[i] && r[j] == before[j]);
            } else if j == p {
                assert(r[i] == before[i]);
            } else if i > p {
                assert(r[i] == before[i - 1] && r[j] == before[j - 1]);
            } else if i == p {
                let y = before[j - 1].1;
                assert(r[j] == before[j - 1]);
                if j - 1 > p {
                    assert(!text_less(before[j - 1].1, before[p].1));
                    lemma_text_less_total(before[p].1, y);
                    if before[p].1 != y {
                        lemma_text_less_transitive(e.1, before[p].1, y);
                    }
                }
                lemma_text_less_asymmetric(e.1, y);
            } else {
                assert(r[i] == before[i] && r[j] == before[j - 1]);
            }
        }
    }
}

/// The windows discovery offers: those listed, sorted by name (stably), each
/// under its trimmed title with its id and size. `own_pid` is the recorder's
/// process id.
pub fn list_windows(windows: &Vec<WindowInfo>, own_pid: u32) -> (r: Vec<ListedWindow>)
    ensures
        r@.map_values(|w: ListedWindow| listed_view(w)) == sorted_by_name(
            window_entries(windows@, own_pid),
        ),
        forall|i: int, j: int|
            0 <= i < j < r.len() ==> !text_less(#[trigger] r[j].name@, #[trigger] r[i].name@),
{
    let mut listed: Vec<ListedWindow> = Vec::new();
    let mut i: usize = 0;
    while i < windows.len()
        invariant
            i <= windows.len(),
            listed@.map_values(|w: ListedWindow| listed_view(w)) == sorted_by_name(
                window_entries(windows@.take(i as int), own_pid),
            ),
        decreases windows.len() - i,
    {
        let w = &windows[i];
        proof {
            assert(windows@.take(i + 1).drop_last() =~= windows@.take(i as int));
            assert(windows@.take(i + 1).last() == w);
        }
        let own = own_window(w.pid, own_pid, w.class.as_str());
        if !own && w.viewable && w.width >= 100 && w.height >= 60 {
            let title = if w.utf8_title.unicode_len() == 0 {
                trim(w.legacy_title.as_str())
            } else {
                trim(w.utf8_title.as_str())
            };
            if title.unicode_len() > 0 {
                let ghost before = listed@.map_values(|x: ListedWindow| listed_view(x));
                let ghost entry = (w.id, window_title(*w), w.width, w.height);
                let ghost all = window_entries(windows@.take(i + 1), own_pid);
                proof {
                    assert(all.drop_last() =~= window_entries(windows@.take(i as int), own_pid));
                    assert(all.last() == entry);
                }
                let mut k: usize = 0;
                while k < listed.len() && !less_text(title.as_str(), listed[k].name.as_str())
                    invariant
                        k <= listed.len(),
                        before == listed@.map_values(|x: ListedWindow| listed_view(x)),
                        title@ == entry.1,
                        forall|j: int| 0 <= j < k ==> !text_less(entry.1, #[trigger] before[j].1),
                    decreases listed.len() - k,
                {
                    assert(before[k as int].1 == listed@[k as int].name@);
                    k = k + 1;
                }
                proof {
                    if k < listed.len() {
                        assert(before[k as int].1 == listed@[k as int].name@);
                    }
                    lemma_name_position(before, entry.1, k as int);
                }
                listed.insert(k, ListedWindow { id: w.id, name: title, width: w.width, height: w.height });
                proof {
                    assert(listed@.map_values(|x: ListedWindow| listed_view(x)) =~= before.insert(
                        k as int,
                        entry,
                    ));
                }
            } else {
                proof {
                    assert(window_entries(windows@.take(i + 1), own_pid) =~= window_entries(
                        windows@.take(i as int),
                        own_pid,
                    ));
                }
            }
        } else {
            proof {
                assert(window_entries(windows@.take(i + 1), own_pid) =~= window_entries(
                    windows@.take(i as int),
                    own_pid,
                ));
            }
        }
        i = i + 1;
    }
    assert(windows@.take(windows.len() as int) =~= windows@);
    proof {
        let view = listed@.map_values(|x: ListedWindow| listed_view(x));
        lemma_sorted_by_name_is_sorted(window_entries(windows@, own_pid));
        assert forall|i: int, j: int| 0 <= i < j < listed.len() implies !text_less(
            #[trigger] listed@[j].name@,
            #[trigger] listed@[i].name@,
        ) by {
            assert(view[i].1 == listed@[i].name@ && view[j].1 == listed@[j].name@);
        }
    }
    listed
}

} // verus!
