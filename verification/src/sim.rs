//! SIM switching: what the switch scripts report, and how it is read.
use vstd::prelude::*;
use crate::adb::opt_string_view;
use crate::text::{
    chars_of, find_str, find_str_range, line_ranges, lines, range_starts_with, starts_with,
    string_of_range, trim, trim_range,
};

verus! {

/// How one device fared in a switch of all devices.
pub enum SwitchStatus {
    /// `[OK]`
    Switched,
    /// `[FAIL]`
    Failed,
    /// `[ERROR]`
    Errored,
    /// `[SKIP]`
    Skipped,
}

/// One reported line of a switch of all devices.
pub struct SwitchLine {
    pub status: SwitchStatus,
    /// The whole line as the script printed it.
    pub message: String,
    /// For a `[OK] SERIAL | …` line, the serial of the device that switched.
    pub serial: Option<String>,
}

pub struct SwitchLineView {
    pub status: SwitchStatus,
    pub message: Seq<char>,
    pub serial: Option<Seq<char>>,
}

impl View for SwitchLine {
    type V = SwitchLineView;

    open spec fn view(&self) -> SwitchLineView {
        SwitchLineView { status: self.status, message: self.message@, serial: opt_string_view(self.serial) }
    }
}

/// The outcome of a switch of all devices.
pub struct SwitchSummary {
    pub results: Vec<SwitchLine>,
    /// Lines marked `[OK]`.
    pub success: usize,
    /// Lines marked `[FAIL]` or `[ERROR]`.
    pub failed: usize,
    /// No device failed and at least one switched.
    pub ok: bool,
}

/// The status a line of the switch script reports, by its leading tag.
pub open spec fn status_of_line(l: Seq<char>) -> Option<SwitchStatus> {
    if starts_with(l, "[OK]"@) {
        Some(SwitchStatus::Switched)
    } else if starts_with(l, "[FAIL]"@) {
        Some(SwitchStatus::Failed)
    } else if starts_with(l, "[ERROR]"@) {
        Some(SwitchStatus::Errored)
    } else if starts_with(l, "[SKIP]"@) {
        Some(SwitchStatus::Skipped)
    } else {
        None
    }
}

/// The serial of a line `[OK] SERIAL | …`: what lies between the tag and the first ` |`.
pub open spec fn ok_serial(l: Seq<char>) -> Option<Seq<char>> {
    if starts_with(l, "[OK] "@) {
        let rest = l.skip("[OK] "@.len() as int);
        match find_str(rest, " |"@) {
            Some(k) => Some(rest.take(k)),
            None => None,
        }
    } else {
        None
    }
}

/// The reported lines among `ls`, in order.
pub open spec fn switch_lines(ls: Seq<Seq<char>>) -> Seq<SwitchLineView>
    decreases ls.len(),
{
    if ls.len() == 0 {
        Seq::empty()
    } else {
        let rest = switch_lines(ls.drop_last());
        match status_of_line(ls.last()) {
            Some(st) => rest.push(
                SwitchLineView { status: st, message: ls.last(), serial: ok_serial(ls.last()) },
            ),
            None => rest,
        }
    }
}

/// The lines of `ls` that carry one of the four status tags, in order.
pub open spec fn reported_lines(ls: Seq<Seq<char>>) -> Seq<Seq<char>> {
    ls.filter(|l: Seq<char>| status_of_line(l) is Some)
}

/// Each result of a switch report is one tagged line of the output, in
/// order and none left out: its message is that whole line, tag included,
/// its status is the line's tag, and its serial is what an `[OK] SERIAL | …`
/// line names.
pub proof fn lemma_switch_lines_are_reported_lines(ls: Seq<Seq<char>>)
    ensures
        switch_lines(ls).len() == reported_lines(ls).len(),
        forall|i: int|
            0 <= i < switch_lines(ls).len() ==> #[trigger] switch_lines(ls)[i].message
                == reported_lines(ls)[i],
        forall|i: int|
            0 <= i < switch_lines(ls).len() ==> status_of_line(#[trigger] switch_lines(ls)[i].message)
                == Some(switch_lines(ls)[i].status),
        forall|i: int|
            0 <= i < switch_lines(ls).len() ==> #[trigger] switch_lines(ls)[i].serial == ok_serial(
                switch_lines(ls)[i].message,
            ),
    decreases ls.len(),
{
    reveal(Seq::filter);
    if ls.len() > 0 {
        lemma_switch_lines_are_reported_lines(ls.drop_last());
        let rest = switch_lines(ls.drop_last());
        assert(reported_lines(ls) == if status_of_line(ls.last()) is Some {
            reported_lines(ls.drop_last()).push(ls.last())
        } else {
            reported_lines(ls.drop_last())
        });
        assert forall|i: int| 0 <= i < switch_lines(ls).len() implies #[trigger] switch_lines(ls)[i].message
            == reported_lines(ls)[i] && status_of_line(switch_lines(ls)[i].message)
                == Some(switch_lines(ls)[i].status) && switch_lines(ls)[i].serial == ok_serial(
                switch_lines(ls)[i].message,
            ) by {
            if i < rest.len() {
                assert(switch_lines(ls)[i] == rest[i]);
            }
        }
    }
}

/// How many of `rs` have status `st`.
pub open spec fn count_status(rs: Seq<SwitchLineView>, st: SwitchStatus) -> nat
    decreases rs.len(),
{
    if rs.len() == 0 {
        0
    } else {
        count_status(rs.drop_last(), st) + if rs.last().status == st {
            1nat
        } else {
            0nat
        }
    }
}

pub open spec fn switch_line_views(v: Seq<SwitchLine>) -> Seq<SwitchLineView> {
    v.map_values(|l: SwitchLine| l@)
}

/// Every reported line is counted once: as a success, a failure or a skip.
pub proof fn lemma_switch_counts_partition(rs: Seq<SwitchLineView>)
    ensures
        count_status(rs, SwitchStatus::Switched) + (count_status(rs, SwitchStatus::Failed) + count_status(
            rs,
            SwitchStatus::Errored,
        )) + count_status(rs, SwitchStatus::Skipped) == rs.len(),
    decreases rs.len(),
{
    if rs.len() > 0 {
        lemma_switch_counts_partition(rs.drop_last());
    }
}


/// Reads one line of the switch script's output.
fn switch_line_in(
    cs: &Vec<char>,
    lo: usize,
    hi: usize,
    tags: &SwitchTags,
) -> (res: Option<SwitchLine>)
    requires
        lo <= hi <= cs.len(),
        tags.wf(),
    ensures
        match status_of_line(cs@.subrange(lo as int, hi as int)) {
            Some(st) => res matches Some(l) && l@ == SwitchLineView {
                status: st,
                message: cs@.subrange(lo as int, hi as int),
                serial: ok_serial(cs@.subrange(lo as int, hi as int)),
            },
            None => res is None,
        },
{
    let ghost line = cs@.subrange(lo as int, hi as int);
    let status = if range_starts_with(cs, lo, hi, &tags.ok) {
        SwitchStatus::Switched
    } else if range_starts_with(cs, lo, hi, &tags.fail) {
        SwitchStatus::Failed
    } else if range_starts_with(cs, lo, hi, &tags.error) {
        SwitchStatus::Errored
    } else if range_starts_with(cs, lo, hi, &tags.skip) {
        SwitchStatus::Skipped
    } else {
        return None;
    };
    let serial = if range_starts_with(cs, lo, hi, &tags.ok_prefix) {
        let from = lo + tags.ok_prefix.len();
        let ghost rest = line.skip("[OK] "@.len() as int);
        assert(cs@.subrange(from as int, hi as int) =~= rest);
        match find_str_range(cs, from, hi, &tags.bar) {
            Some(k) => {
                assert(find_str(rest, " |"@) == Some(k - from));
                assert(cs@.subrange(from as int, k as int) =~= rest.take(k - from));
                let ser = string_of_range(cs, from, k);
                assert(ok_serial(line) == Some(ser@));
                Some(ser)
            },
            None => {
                assert(ok_serial(line) is None);
                None
            },
        }
    } else {
        assert(ok_serial(line) is None);
        None
    };
    let message = string_of_range(cs, lo, hi);
    Some(SwitchLine { status, message, serial })
}

/// The tags that the switch script puts in front of its lines.
struct SwitchTags {
    ok: Vec<char>,
    ok_prefix: Vec<char>,
    fail: Vec<char>,
    error: Vec<char>,
    skip: Vec<char>,
    bar: Vec<char>,
}

impl SwitchTags {
    spec fn wf(&self) -> bool {
        &&& self.ok@ == "[OK]"@
        &&& self.ok_prefix@ == "[OK] "@
        &&& self.fail@ == "[FAIL]"@
        &&& self.error@ == "[ERROR]"@
        &&& self.skip@ == "[SKIP]"@
        &&& self.bar@ == " |"@
    }

    fn new() -> (t: Self)
        ensures
            t.wf(),
    {
        SwitchTags {
            ok: chars_of("[OK]"),
            ok_prefix: chars_of("[OK] "),
            fail: chars_of("[FAIL]"),
            error: chars_of("[ERROR]"),
            skip: chars_of("[SKIP]"),
            bar: chars_of(" |"),
        }
    }
}

/// Reads the output of a switch of all devices: each line tagged `[OK]`,
/// `[FAIL]`, `[ERROR]` or `[SKIP]`, with the counts.
pub fn summarize_switch_all(output: &str) -> (res: SwitchSummary)
    ensures
        switch_line_views(res.results@) == switch_lines(lines(output@)),
        res.success == count_status(switch_lines(lines(output@)), SwitchStatus::Switched),
        res.failed == count_status(switch_lines(lines(output@)), SwitchStatus::Failed)
            + count_status(switch_lines(lines(output@)), SwitchStatus::Errored),
        res.ok == (res.failed == 0 && res.success > 0),
        res.results.len() == reported_lines(lines(output@)).len(),
        forall|i: int|
            0 <= i < res.results.len() ==> #[trigger] res.results@[i].message@ == reported_lines(
                lines(output@),
            )[i],
{
    let cs = chars_of(output);
    let lr = line_ranges(&cs);
    let ghost ls = lines(cs@);
    let tags = SwitchTags::new();
    let mut results: Vec<SwitchLine> = Vec::new();
    let mut success: usize = 0;
    let mut failed: usize = 0;
    let mut li: usize = 0;
    assert(ls.subrange(0, 0).len() == 0);
    assert(switch_line_views(results@) =~= Seq::<SwitchLineView>::empty());
    while li < lr.len()
        invariant
            li <= lr.len(),
            cs@ == output@,
            ls == lines(cs@),
            lr.len() == ls.len(),
            forall|i: int|
                0 <= i < lr.len() ==> (#[trigger] lr[i]).0 <= lr[i].1 <= cs.len() && cs@.subrange(
                    lr[i].0 as int,
                    lr[i].1 as int,
                ) == ls[i],
            tags.wf(),
            switch_line_views(results@) == switch_lines(ls.subrange(0, li as int)),
            success == count_status(switch_lines(ls.subrange(0, li as int)), SwitchStatus::Switched),
            failed == count_status(switch_lines(ls.subrange(0, li as int)), SwitchStatus::Failed)
                + count_status(switch_lines(ls.subrange(0, li as int)), SwitchStatus::Errored),
            success + failed <= results.len(),
            results.len() <= li,
        decreases lr.len() - li,
    {
        let (lo, hi) = lr[li];
        let ghost line = ls[li as int];
        assert(cs@.subrange(lo as int, hi as int) == line);
        let ghost sub = ls.subrange(0, li + 1);
        assert(sub.drop_last() =~= ls.subrange(0, li as int));
        assert(sub.last() == line);
        match switch_line_in(&cs, lo, hi, &tags) {
            Some(l) => {
                let is_ok = match l.status {
                    SwitchStatus::Switched => true,
                    _ => false,
                };
                let is_failure = match l.status {
                    SwitchStatus::Failed => true,
                    SwitchStatus::Errored => true,
                    _ => false,
                };
                let ghost before = results@;
                proof {
                    assert(switch_lines(sub) == switch_lines(sub.drop_last()).push(l@));
                    assert(switch_lines(sub).drop_last() =~= switch_lines(sub.drop_last()));
                    assert(switch_lines(sub).last() == l@);
                }
                results.push(l);
                assert(switch_line_views(results@) =~= switch_line_views(before).push(
                    results@.last()@,
                ));
                if is_ok {
                    success = success + 1;
                }
                if is_failure {
                    failed = failed + 1;
                }
            },
            None => {},
        }
        li = li + 1;
    }
    assert(ls.subrange(0, lr.len() as int) =~= ls);
    proof {
        lemma_switch_lines_are_reported_lines(ls);
        assert(switch_line_views(results@) == switch_lines(ls));
        assert forall|i: int| 0 <= i < results.len() implies #[trigger] results@[i].message@
            == reported_lines(ls)[i] by {
            assert(switch_line_views(results@)[i] == results@[i]@);
            assert(switch_lines(ls)[i].message == reported_lines(ls)[i]);
        }
    }
    let ok = failed == 0 && success > 0;
    SwitchSummary { results, success, failed, ok }
}

/// Whether a switch script reported success anywhere in its output.
pub open spec fn switch_succeeded_of(output: Seq<char>) -> bool {
    find_str(output, "[OK]"@) is Some
}

pub fn switch_succeeded(output: &str) -> (b: bool)
    ensures
        b == switch_succeeded_of(output@),
{
    let cs = chars_of(output);
    let ok = chars_of("[OK]");
    assert(cs@.subrange(0, cs.len() as int) =~= cs@);
    find_str_range(&cs, 0, cs.len(), &ok).is_some()
}

/// The SIM a device currently uses, as the status script reports it.
pub struct CurrentSim {
    pub device_id: String,
    pub label: String,
}

/// A status line `DEVICE | 目前: LABEL (共 N 個號碼)`: the device is what
/// precedes the first ` | `, trimmed; the label lies between `目前: ` and
/// the first ` (` of the trimmed rest.
pub open spec fn current_of_line(l: Seq<char>) -> Option<(Seq<char>, Seq<char>)> {
    match find_str(l, " | "@) {
        None => None,
        Some(k) => {
            let device = trim(l.take(k));
            let status = trim(l.skip(k + " | "@.len()));
            if starts_with(status, "目前: "@) {
                let rest = status.skip("目前: "@.len() as int);
                match find_str(rest, " ("@) {
                    Some(j) => Some((device, rest.take(j))),
                    None => None,
                }
            } else {
                None
            }
        },
    }
}

pub open spec fn currents_of_lines(ls: Seq<Seq<char>>) -> Seq<(Seq<char>, Seq<char>)>
    decreases ls.len(),
{
    if ls.len() == 0 {
        Seq::empty()
    } else {
        let rest = currents_of_lines(ls.drop_last());
        match current_of_line(ls.last()) {
            Some(c) => rest.push(c),
            None => rest,
        }
    }
}

pub open spec fn current_views(v: Seq<CurrentSim>) -> Seq<(Seq<char>, Seq<char>)> {
    v.map_values(|c: CurrentSim| (c.device_id@, c.label@))
}


/// Reads one line of the status script's output.
fn current_in_line(
    cs: &Vec<char>,
    lo: usize,
    hi: usize,
    sep: &Vec<char>,
    now: &Vec<char>,
    paren: &Vec<char>,
) -> (res: Option<CurrentSim>)
    requires
        lo <= hi <= cs.len(),
        sep@ == " | "@,
        now@ == "目前: "@,
        paren@ == " ("@,
    ensures
        match current_of_line(cs@.subrange(lo as int, hi as int)) {
            Some((d, l)) => res matches Some(c) && c.device_id@ == d && c.label@ == l,
            None => res is None,
        },
{
    let ghost line = cs@.subrange(lo as int, hi as int);
    let k = match find_str_range(cs, lo, hi, sep) {
        Some(k) => k,
        None => return None,
    };
    assert(cs@.subrange(lo as int, k as int) =~= line.take(k - lo));
    assert(cs@.subrange(k + sep.len(), hi as int) =~= line.skip(k - lo + sep.len()));
    let (da, db) = trim_range(cs, lo, k);
    let (sa, sb) = trim_range(cs, k + sep.len(), hi);
    let ghost status = cs@.subrange(sa as int, sb as int);
    assert(find_str(line, " | "@) == Some(k - lo));
    assert(status == trim(line.skip((k - lo) + " | "@.len())));
    if !range_starts_with(cs, sa, sb, now) {
        return None;
    }
    let from = sa + now.len();
    assert(cs@.subrange(from as int, sb as int) =~= status.skip(now.len() as int));
    let j = match find_str_range(cs, from, sb, paren) {
        Some(j) => j,
        None => return None,
    };
    assert(cs@.subrange(from as int, j as int) =~= status.skip(now.len() as int).take(j - from));
    let device_id = string_of_range(cs, da, db);
    let label = string_of_range(cs, from, j);
    Some(CurrentSim { device_id, label })
}

/// The current SIM of each device that the status script's output names, in order.
pub fn parse_current_report(output: &str) -> (res: Vec<CurrentSim>)
    ensures
        current_views(res@) == currents_of_lines(lines(output@)),
{
    let cs = chars_of(output);
    let lr = line_ranges(&cs);
    let ghost ls = lines(cs@);
    let sep = chars_of(" | ");
    let now = chars_of("目前: ");
    let paren = chars_of(" (");
    let mut res: Vec<CurrentSim> = Vec::new();
    let mut li: usize = 0;
    assert(ls.subrange(0, 0).len() == 0);
    assert(current_views(res@) =~= Seq::<(Seq<char>, Seq<char>)>::empty());
    while li < lr.len()
        invariant
            li <= lr.len(),
            cs@ == output@,
            ls == lines(cs@),
            lr.len() == ls.len(),
            forall|i: int|
                0 <= i < lr.len() ==> (#[trigger] lr[i]).0 <= lr[i].1 <= cs.len() && cs@.subrange(
                    lr[i].0 as int,
                    lr[i].1 as int,
                ) == ls[i],
            sep@ == " | "@,
            now@ == "目前: "@,
            paren@ == " ("@,
            current_views(res@) == currents_of_lines(ls.subrange(0, li as int)),
        decreases lr.len() - li,
    {
        let (lo, hi) = lr[li];
        let ghost line = ls[li as int];
        assert(cs@.subrange(lo as int, hi as int) == line);
        let ghost sub = ls.subrange(0, li + 1);
        assert(sub.drop_last() =~= ls.subrange(0, li as int));
        assert(sub.last() == line);
        match current_in_line(&cs, lo, hi, &sep, &now, &paren) {
            Some(c) => {
                let ghost before = res@;
                res.push(c);
                assert(current_views(res@) =~= current_views(before).push(
                    (res@.last().device_id@, res@.last().label@),
                ));
            },
            None => {},
        }
        li = li + 1;
    }
    assert(ls.subrange(0, lr.len() as int) =~= ls);
    res
}


/// The number to record as a device's current one after a status sync: the
/// number of the card with the reported label, or the label itself when the
/// card has no number.
pub fn current_phone_for(current: &CurrentSim, card_phone: Option<String>) -> (res: String)
    ensures
        res@ == match card_phone {
            Some(p) => p@,
            None => current.label@,
        },
{
    match card_phone {
        Some(p) => p,
        None => current.label.clone(),
    }
}

} // verus!
