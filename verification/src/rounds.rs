//! The rounds that run in the background over the devices that `adb` lists:
//! screenshot capture, which pauses while nobody watches, and `adb reverse`,
//! which each device gets once.
use vstd::prelude::*;
use crate::adb::DeviceInfo;
use crate::screen::ScreenshotCache;
use crate::serial_map::SerialMap;

verus! {

/// How long the capture round sleeps when no viewer asked for a screenshot.
pub const IDLE_MS: u64 = 1000;

/// How long the capture round sleeps when the device list could not be read.
pub const BACKOFF_MS: u64 = 3000;

/// How long the reverse round sleeps between two passes.
pub const REVERSE_INTERVAL_MS: u64 = 30000;

/// The texts of a list of strings.
pub open spec fn string_views(v: Seq<String>) -> Seq<Seq<char>> {
    v.map_values(|s: String| s@)
}

/// The serials of a list of devices, in order.
pub open spec fn serials_of(ds: Seq<DeviceInfo>) -> Seq<Seq<char>> {
    ds.map_values(|d: DeviceInfo| d.serial@)
}

/// The serials, in order, that have no entry in `known`.
pub open spec fn reverse_pending(known: Map<Seq<char>, ()>, serials: Seq<Seq<char>>) -> Seq<Seq<char>> {
    serials.filter(|s: Seq<char>| !known.contains_key(s))
}

/// What one capture round does next.
pub enum PollStep {
    /// Nobody watched since the last round: sleep [`IDLE_MS`] and look again.
    Idle,
    /// The device list could not be read: sleep [`BACKOFF_MS`] and try again.
    Backoff,
    /// Capture a screenshot of each of these devices, then go on at once.
    Capture(Vec<String>),
}

/// How a capture round begins.
pub enum RoundStart {
    /// Nobody watched since the last round: sleep [`IDLE_MS`] without asking `adb` anything.
    Idle,
    /// Someone watched: read the device list, then let [`poll_step`] decide.
    ListDevices,
}

/// Begins a capture round: takes the cache's watched flag, so that the round
/// after this one idles unless a viewer asks again, and says whether to
/// read the device list.
pub fn begin_round(cache: &mut ScreenshotCache) -> (start: RoundStart)
    ensures
        old(cache)@.watched ==> start is ListDevices,
        !old(cache)@.watched ==> start is Idle,
        !final(cache)@.watched,
        final(cache)@.shots == old(cache)@.shots,
{
    if cache.take_watched() {
        RoundStart::ListDevices
    } else {
        RoundStart::Idle
    }
}

/// The shots after the captures of one round were recorded in this order,
/// each as a serial, the bytes and the capture time.
pub open spec fn record_all(
    shots: Map<Seq<char>, (Seq<u8>, u64)>,
    captures: Seq<(Seq<char>, Seq<u8>, u64)>,
) -> Map<Seq<char>, (Seq<u8>, u64)>
    decreases captures.len(),
{
    if captures.len() == 0 {
        shots
    } else {
        let c = captures.last();
        record_all(shots, captures.drop_last()).insert(c.0, (c.1, c.2))
    }
}

/// A whole capture round. The round captures the listed devices
/// ([`poll_step`]) and records each capture that succeeded
/// ([`ScreenshotCache::record`]), a device at most once. Afterwards each
/// device captured holds the shot of this round; every other device, not
/// listed or whose capture failed, keeps exactly what it had.
pub proof fn lemma_capture_round(
    shots: Map<Seq<char>, (Seq<u8>, u64)>,
    listed: Seq<DeviceInfo>,
    captures: Seq<(Seq<char>, Seq<u8>, u64)>,
    k: Seq<char>,
)
    requires
        forall|i: int| 0 <= i < captures.len() ==> serials_of(listed).contains(#[trigger] captures[i].0),
        forall|i: int, j: int|
            0 <= i < j < captures.len() ==> #[trigger] captures[i].0 != #[trigger] captures[j].0,
    ensures
        forall|i: int|
            0 <= i < captures.len() && #[trigger] captures[i].0 == k ==> record_all(
                shots,
                captures,
            ).contains_key(k) && record_all(shots, captures)[k] == (captures[i].1, captures[i].2),
        (forall|i: int| 0 <= i < captures.len() ==> #[trigger] captures[i].0 != k) ==> (record_all(
            shots,
            captures,
        ).contains_key(k) == shots.contains_key(k) && (shots.contains_key(k) ==> record_all(
            shots,
            captures,
        )[k] == shots[k])),
        !serials_of(listed).contains(k) ==> (record_all(shots, captures).contains_key(k)
            == shots.contains_key(k) && (shots.contains_key(k) ==> record_all(shots, captures)[k]
            == shots[k])),
    decreases captures.len(),
{
    if captures.len() > 0 {
        let rest = captures.drop_last();
        assert forall|i: int| 0 <= i < rest.len() implies serials_of(listed).contains(
            #[trigger] rest[i].0,
        ) by {
            assert(rest[i] == captures[i]);
        }
        assert forall|i: int, j: int| 0 <= i < j < rest.len() implies #[trigger] rest[i].0
            != #[trigger] rest[j].0 by {
            assert(rest[i] == captures[i] && rest[j] == captures[j]);
        }
        lemma_capture_round(shots, listed, rest, k);
        let last = captures.len() - 1;
        assert(captures[last] == captures.last());
        if !serials_of(listed).contains(k) {
            assert forall|i: int| 0 <= i < captures.len() implies #[trigger] captures[i].0 != k by {}
        }
        assert forall|i: int|
            0 <= i < captures.len() && #[trigger] captures[i].0 == k implies record_all(
            shots,
            captures,
        ).contains_key(k) && record_all(shots, captures)[k] == (captures[i].1, captures[i].2) by {
            if i < last {
                assert(rest[i] == captures[i]);
            }
        }
        if forall|i: int| 0 <= i < captures.len() ==> #[trigger] captures[i].0 != k {
            assert forall|i: int| 0 <= i < rest.len() implies #[trigger] rest[i].0 != k by {
                assert(rest[i] == captures[i]);
            }
        }
    }
}

/// The serials of the devices, in order.
fn serials(ds: &Vec<DeviceInfo>) -> (r: Vec<String>)
    ensures
        string_views(r@) == serials_of(ds@),
{
    let mut r: Vec<String> = Vec::new();
    let mut i: usize = 0;
    while i < ds.len()
        invariant
            i <= ds.len(),
            string_views(r@) == serials_of(ds@.take(i as int)),
        decreases ds.len() - i,
    {
        let s = ds[i].serial.clone();
        let ghost before = r@;
        r.push(s);
        assert(string_views(r@) =~= string_views(before).push(ds@[i as int].serial@));
        assert(serials_of(ds@.take(i + 1)) =~= serials_of(ds@.take(i as int)).push(
            ds@[i as int].serial@,
        ));
        i = i + 1;
    }
    assert(ds@.take(ds.len() as int) =~= ds@);
    r
}

/// The next step of the capture round, from whether a viewer asked for a
/// screenshot since the last round and, when one did, the device list that
/// `adb` gave (`None` when listing failed).
pub fn poll_step(watched: bool, listed: Option<Vec<DeviceInfo>>) -> (s: PollStep)
    ensures
        !watched ==> s is Idle,
        watched && listed is None ==> s is Backoff,
        watched && listed is Some ==> (s matches PollStep::Capture(ss) && string_views(ss@)
            == serials_of(listed->0@)),
{
    if !watched {
        return PollStep::Idle;
    }
    match listed {
        None => PollStep::Backoff,
        Some(ds) => PollStep::Capture(serials(&ds)),
    }
}

/// The listed devices, in order, that still need an `adb reverse`: those
/// without an entry in `known`, the devices whose reverse already succeeded.
/// A device whose reverse failed stays out of `known`, so the next pass tries
/// it again.
pub fn reverse_targets(known: &SerialMap<()>, listed: &Vec<DeviceInfo>) -> (r: Vec<String>)
    ensures
        string_views(r@) == reverse_pending(known@, serials_of(listed@)),
{
    let mut r: Vec<String> = Vec::new();
    let mut i: usize = 0;
    while i < listed.len()
        invariant
            i <= listed.len(),
            string_views(r@) == reverse_pending(known@, serials_of(listed@.take(i as int))),
        decreases listed.len() - i,
    {
        let ghost prefix = serials_of(listed@.take(i as int));
        let ghost next = serials_of(listed@.take(i + 1));
        assert(next =~= prefix.push(listed@[i as int].serial@));
        assert(next.drop_last() =~= prefix);
        assert(next.last() == listed@[i as int].serial@);
        assert(reverse_pending(known@, next) == if known@.contains_key(next.last()) {
            reverse_pending(known@, prefix)
        } else {
            reverse_pending(known@, prefix).push(next.last())
        }) by {
            reveal(Seq::filter);
        }
        if !known.contains(&listed[i].serial) {
            let s = listed[i].serial.clone();
            let ghost before = r@;
            r.push(s);
            assert(string_views(r@) =~= string_views(before).push(listed@[i as int].serial@));
        }
        i = i + 1;
    }
    assert(listed@.take(listed.len() as int) =~= listed@);
    r
}

/// Remembers the outcome of one `adb reverse`: a device whose reverse
/// succeeded joins `known`; after a failure `known` stays as it was.
pub fn remember_reverse(known: &mut SerialMap<()>, serial: String, succeeded: bool)
    ensures
        succeeded ==> final(known)@ == old(known)@.insert(serial@, ()),
        !succeeded ==> final(known)@ == old(known)@,
{
    if succeeded {
        known.insert(serial, ());
    }
}

/// The known devices after one reverse pass: the outcome of each target, in
/// order, remembered as [`remember_reverse`] does.
pub open spec fn remember_all(
    known: Map<Seq<char>, ()>,
    targets: Seq<Seq<char>>,
    outcomes: Seq<bool>,
) -> Map<Seq<char>, ()>
    decreases targets.len(),
{
    if targets.len() == 0 || outcomes.len() == 0 {
        known
    } else {
        let before = remember_all(known, targets.drop_last(), outcomes.drop_last());
        if outcomes.last() {
            before.insert(targets.last(), ())
        } else {
            before
        }
    }
}

/// A device is known after a pass exactly when it was known before or was a
/// target whose reverse succeeded.
proof fn lemma_remember_all(known: Map<Seq<char>, ()>, targets: Seq<Seq<char>>, outcomes: Seq<bool>, k: Seq<char>)
    requires
        targets.len() == outcomes.len(),
    ensures
        remember_all(known, targets, outcomes).contains_key(k) <==> (known.contains_key(k) || exists|i: int|
            0 <= i < targets.len() && #[trigger] targets[i] == k && outcomes[i]),
    decreases targets.len(),
{
    if targets.len() > 0 {
        let t = targets.drop_last();
        let o = outcomes.drop_last();
        lemma_remember_all(known, t, o, k);
        let last = targets.len() - 1;
        if remember_all(known, targets, outcomes).contains_key(k) && !known.contains_key(k) {
            if remember_all(known, t, o).contains_key(k) {
                let i = choose|i: int| 0 <= i < t.len() && #[trigger] t[i] == k && o[i];
                assert(targets[i] == k && outcomes[i]);
            } else {
                assert(targets[last] == k && outcomes[last]);
            }
        }
        if exists|i: int| 0 <= i < targets.len() && #[trigger] targets[i] == k && outcomes[i] {
            let i = choose|i: int| 0 <= i < targets.len() && #[trigger] targets[i] == k && outcomes[i];
            if i < last {
                assert(t[i] == k && o[i]);
            }
        }
    }
}

/// `adb reverse` once per device, across passes. A pass sends a reverse to
/// each target of [`reverse_targets`] and remembers each outcome with
/// [`remember_reverse`]. A device that was known is no target and stays
/// known; a target whose reverse succeeded is known afterwards, so no later
/// pass sends it one again; a listed device that is still unknown after the
/// pass, because its reverse failed, is a target of the next pass in which
/// it is listed.
pub proof fn lemma_reverse_once(
    known: Map<Seq<char>, ()>,
    listed: Seq<Seq<char>>,
    outcomes: Seq<bool>,
    next_listed: Seq<Seq<char>>,
    k: Seq<char>,
)
    requires
        outcomes.len() == reverse_pending(known, listed).len(),
    ensures
        known.contains_key(k) ==> !reverse_pending(known, listed).contains(k),
        known.contains_key(k) ==> remember_all(known, reverse_pending(known, listed), outcomes).contains_key(k),
        forall|i: int|
            0 <= i < outcomes.len() && #[trigger] reverse_pending(known, listed)[i] == k && outcomes[i]
                ==> remember_all(known, reverse_pending(known, listed), outcomes).contains_key(k)
                && !reverse_pending(
                remember_all(known, reverse_pending(known, listed), outcomes),
                next_listed,
            ).contains(k),
        next_listed.contains(k) && !remember_all(known, reverse_pending(known, listed), outcomes).contains_key(k)
            ==> reverse_pending(
            remember_all(known, reverse_pending(known, listed), outcomes),
            next_listed,
        ).contains(k),
{
    let targets = reverse_pending(known, listed);
    let after = remember_all(known, targets, outcomes);
    lemma_remember_all(known, targets, outcomes, k);
    lemma_pending_contains(known, listed, k);
    lemma_pending_contains(after, next_listed, k);
}

/// A serial is pending exactly when it is listed and not known.
proof fn lemma_pending_contains(known: Map<Seq<char>, ()>, serials: Seq<Seq<char>>, k: Seq<char>)
    ensures
        reverse_pending(known, serials).contains(k) <==> (serials.contains(k) && !known.contains_key(k)),
{
    let pred = |s: Seq<char>| !known.contains_key(s);
    let f = serials.filter(pred);
    broadcast use vstd::seq_lib::group_filter_ensures;

    if serials.contains(k) && !known.contains_key(k) {
        let i = choose|i: int| 0 <= i < serials.len() && serials[i] == k;
        serials.lemma_filter_contains(pred, i);
    }
    if f.contains(k) {
        serials.lemma_filter_contains_rev(pred, k);
    }
}

} // verus!
