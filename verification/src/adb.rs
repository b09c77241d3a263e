//! What the library reads out of `adb` output: the device list of
//! `adb devices -l` and the screen size that `wm size` reports.
use vstd::prelude::*;
use crate::text::{
    decimal, is_char, is_digit, is_whitespace, lemma_decimal_digits,
    lemma_decimal_parse_roundtrip, lemma_first_index_is, trim_end, trim_start, trimmed_end_len,
    chars_of, find_char, index_of_char, line_ranges, lines, parse_unsigned, parse_unsigned_range,
    range_equals, range_starts_with, starts_with, string_of_range, trim, trim_range, word_ranges,
    words,
};

verus! {

/// A device that `adb devices -l` lists as ready.
pub struct DeviceInfo {
    pub serial: String,
    pub model: Option<String>,
    pub product: Option<String>,
    pub status: String,
}

/// The mathematical content of a [`DeviceInfo`].
pub struct DeviceInfoView {
    pub serial: Seq<char>,
    pub model: Option<Seq<char>>,
    pub product: Option<Seq<char>>,
    pub status: Seq<char>,
}

pub open spec fn opt_string_view(o: Option<String>) -> Option<Seq<char>> {
    match o {
        Some(s) => Some(s@),
        None => None,
    }
}

impl View for DeviceInfo {
    type V = DeviceInfoView;

    open spec fn view(&self) -> DeviceInfoView {
        DeviceInfoView {
            serial: self.serial@,
            model: opt_string_view(self.model),
            product: opt_string_view(self.product),
            status: self.status@,
        }
    }
}

/// A screen size in pixels.
pub struct WindowSize {
    pub width: u32,
    pub height: u32,
}

/// The rest of the last word that begins with `prefix`, if any word does.
pub open spec fn last_with_prefix(parts: Seq<Seq<char>>, prefix: Seq<char>) -> Option<Seq<char>>
    decreases parts.len(),
{
    if parts.len() == 0 {
        None
    } else if starts_with(parts.last(), prefix) {
        Some(parts.last().skip(prefix.len() as int))
    } else {
        last_with_prefix(parts.drop_last(), prefix)
    }
}

/// The device that one line of `adb devices -l` describes: its words are the
/// serial, the state, then `key:value` details; only a device in state
/// `device` (not `offline` or `unauthorized`) counts.
pub open spec fn device_of_line(line: Seq<char>) -> Option<DeviceInfoView> {
    let parts = words(line);
    if parts.len() < 2 || parts[1] != "device"@ {
        None
    } else {
        Some(
            DeviceInfoView {
                serial: parts[0],
                model: last_with_prefix(parts.skip(2), "model:"@),
                product: last_with_prefix(parts.skip(2), "product:"@),
                status: parts[1],
            },
        )
    }
}

pub open spec fn devices_of_lines(ls: Seq<Seq<char>>) -> Seq<DeviceInfoView>
    decreases ls.len(),
{
    if ls.len() == 0 {
        Seq::empty()
    } else {
        let rest = devices_of_lines(ls.drop_last());
        match device_of_line(ls.last()) {
            Some(d) => rest.push(d),
            None => rest,
        }
    }
}

/// The devices that `adb devices -l` output lists, in order: every line after
/// the heading that names a ready device.
pub open spec fn device_list(output: Seq<char>) -> Seq<DeviceInfoView> {
    let ls = lines(output);
    if ls.len() == 0 {
        Seq::empty()
    } else {
        devices_of_lines(ls.skip(1))
    }
}

pub open spec fn device_views(v: Seq<DeviceInfo>) -> Seq<DeviceInfoView> {
    v.map_values(|d: DeviceInfo| d@)
}

/// The detail that follows `prefix` in the last of the words `ws[from..]` that starts with it.
fn last_detail(
    cs: &Vec<char>,
    ws: &Vec<(usize, usize)>,
    lo: usize,
    hi: usize,
    prefix: &Vec<char>,
) -> (res: Option<String>)
    requires
        lo <= hi <= cs.len(),
        ws.len() >= 2,
        ws.len() == words(cs@.subrange(lo as int, hi as int)).len(),
        forall|i: int|
            0 <= i < ws.len() ==> lo <= (#[trigger] ws[i]).0 <= ws[i].1 <= hi && cs@.subrange(
                ws[i].0 as int,
                ws[i].1 as int,
            ) == words(cs@.subrange(lo as int, hi as int))[i],
    ensures
        opt_string_view(res) == last_with_prefix(
            words(cs@.subrange(lo as int, hi as int)).skip(2),
            prefix@,
        ),
{
    let ghost parts = words(cs@.subrange(lo as int, hi as int));
    let mut found: Option<String> = None;
    let mut j: usize = 2;
    assert(parts.subrange(2, 2).len() == 0);
    while j < ws.len()
        invariant
            2 <= j <= ws.len(),
            lo <= hi <= cs.len(),
            ws.len() == parts.len(),
            parts == words(cs@.subrange(lo as int, hi as int)),
            forall|i: int|
                0 <= i < ws.len() ==> lo <= (#[trigger] ws[i]).0 <= ws[i].1 <= hi && cs@.subrange(
                    ws[i].0 as int,
                    ws[i].1 as int,
                ) == parts[i],
            opt_string_view(found) == last_with_prefix(parts.subrange(2, j as int), prefix@),
        decreases ws.len() - j,
    {
        let (a, b) = ws[j];
        assert(cs@.subrange(a as int, b as int) == parts[j as int]);
        let ghost sub = parts.subrange(2, j + 1);
        assert(sub.drop_last() =~= parts.subrange(2, j as int));
        assert(sub.last() == parts[j as int]);
        if range_starts_with(cs, a, b, prefix) {
            found = Some(string_of_range(cs, a + prefix.len(), b));
            assert(cs@.subrange(a + prefix.len(), b as int) =~= parts[j as int].skip(
                prefix.len() as int,
            ));
        }
        j = j + 1;
    }
    assert(parts.subrange(2, ws.len() as int) =~= parts.skip(2));
    found
}

/// The ready devices that the output of `adb devices -l` lists.
pub fn parse_device_list(output: &str) -> (res: Vec<DeviceInfo>)
    ensures
        device_views(res@) == device_list(output@),
{
    let cs = chars_of(output);
    let lr = line_ranges(&cs);
    let ghost ls = lines(cs@);
    let mut res: Vec<DeviceInfo> = Vec::new();
    if lr.len() == 0 {
        assert(device_views(res@) =~= Seq::<DeviceInfoView>::empty());
        return res;
    }
    let device = chars_of("device");
    let model_prefix = chars_of("model:");
    let product_prefix = chars_of("product:");
    let mut li: usize = 1;
    assert(ls.subrange(1, 1).len() == 0);
    assert(device_views(res@) =~= Seq::<DeviceInfoView>::empty());
    while li < lr.len()
        invariant
            1 <= li <= lr.len(),
            cs@ == output@,
            ls == lines(cs@),
            lr.len() == ls.len(),
            forall|i: int|
                0 <= i < lr.len() ==> (#[trigger] lr[i]).0 <= lr[i].1 <= cs.len() && cs@.subrange(
                    lr[i].0 as int,
                    lr[i].1 as int,
                ) == ls[i],
            device@ == "device"@,
            model_prefix@ == "model:"@,
            product_prefix@ == "product:"@,
            device_views(res@) == devices_of_lines(ls.subrange(1, li as int)),
        decreases lr.len() - li,
    {
        let (lo, hi) = lr[li];
        let ghost line = ls[li as int];
        assert(cs@.subrange(lo as int, hi as int) == line);
        let ghost sub = ls.subrange(1, li + 1);
        assert(sub.drop_last() =~= ls.subrange(1, li as int));
        assert(sub.last() == line);
        let ws = word_ranges(&cs, lo, hi);
        let ghost parts = words(line);
        if ws.len() >= 2 {
            let (a1, b1) = ws[1];
            assert(cs@.subrange(a1 as int, b1 as int) == parts[1]);
            if range_equals(&cs, a1, b1, &device) {
                let (a0, b0) = ws[0];
                assert(cs@.subrange(a0 as int, b0 as int) == parts[0]);
                let serial = string_of_range(&cs, a0, b0);
                let status = string_of_range(&cs, a1, b1);
                let model = last_detail(&cs, &ws, lo, hi, &model_prefix);
                let product = last_detail(&cs, &ws, lo, hi, &product_prefix);
                let d = DeviceInfo { serial, model, product, status };
                let ghost before = res@;
                res.push(d);
                assert(device_views(res@) =~= device_views(before).push(d@));
            }
        }
        li = li + 1;
    }
    assert(ls.subrange(1, lr.len() as int) =~= ls.skip(1));
    res
}

/// The screen size on one line of `wm size` output: `Physical size: WxH`,
/// where the part after the label, trimmed, holds exactly one `x` between two
/// numbers that fit in a `u32`.
pub open spec fn size_of_line(line: Seq<char>) -> Option<(nat, nat)> {
    let label = "Physical size: "@;
    if !starts_with(line, label) {
        None
    } else {
        let r = trim(line.skip(label.len() as int));
        let k = index_of_char(r, 'x');
        if k >= r.len() || index_of_char(r.skip(k + 1), 'x') < r.len() - k - 1 {
            None
        } else {
            match (
                parse_unsigned(r.take(k), u32::MAX as nat),
                parse_unsigned(r.skip(k + 1), u32::MAX as nat),
            ) {
                (Some(w), Some(h)) => Some((w, h)),
                _ => None,
            }
        }
    }
}

/// The line that `wm size` prints for a screen of `w` by `h` pixels reads
/// back as exactly that size.
pub proof fn lemma_size_line_reads_back(w: u32, h: u32)
    ensures
        size_of_line("Physical size: "@ + decimal(w as nat) + seq!['x'] + decimal(h as nat)) == Some(
            (w as nat, h as nat),
        ),
{
    reveal_strlit("Physical size: ");
    let label = "Physical size: "@;
    let dw = decimal(w as nat);
    let dh = decimal(h as nat);
    let line = label + dw + seq!['x'] + dh;
    lemma_decimal_digits(w as nat);
    lemma_decimal_digits(h as nat);
    assert(line.take(label.len() as int) =~= label);
    let r0 = line.skip(label.len() as int);
    assert(r0 =~= dw + seq!['x'] + dh);
    assert(is_digit(dw[0]));
    assert(!is_whitespace(r0[0]));
    lemma_first_index_is(r0, |c: char| !is_whitespace(c), 0);
    assert(trim_start(r0) =~= r0);
    assert(r0.last() == dh.last());
    assert(is_digit(dh[dh.len() - 1]));
    assert(trimmed_end_len(r0) == r0.len());
    assert(trim_end(r0) =~= r0);
    let r = trim(line.skip(label.len() as int));
    assert(r == r0);
    assert forall|j: int| 0 <= j < dw.len() implies !is_char('x')(#[trigger] r[j]) by {
        assert(r[j] == dw[j]);
        assert(is_digit(dw[j]));
    }
    lemma_first_index_is(r, is_char('x'), dw.len() as int);
    assert(r.take(dw.len() as int) =~= dw);
    assert(r.skip(dw.len() as int + 1) =~= dh);
    assert forall|j: int| 0 <= j < dh.len() implies !is_char('x')(#[trigger] dh[j]) by {
        assert(is_digit(dh[j]));
    }
    lemma_first_index_is(dh, is_char('x'), dh.len() as int);
    lemma_decimal_parse_roundtrip(w as nat, u32::MAX as nat);
    lemma_decimal_parse_roundtrip(h as nat, u32::MAX as nat);
}

pub open spec fn first_size(ls: Seq<Seq<char>>) -> Option<(nat, nat)>
    decreases ls.len(),
{
    if ls.len() == 0 {
        None
    } else {
        match size_of_line(ls[0]) {
            Some(wh) => Some(wh),
            None => first_size(ls.drop_first()),
        }
    }
}

/// The screen size that `wm size` output reports: the first line that gives one.
pub open spec fn window_size_of(output: Seq<char>) -> Option<(nat, nat)> {
    first_size(lines(output))
}

proof fn lemma_first_size_skip(ls: Seq<Seq<char>>, i: int)
    requires
        0 <= i < ls.len(),
        size_of_line(ls[i]) is None,
    ensures
        first_size(ls.skip(i)) == first_size(ls.skip(i + 1)),
{
    assert(ls.skip(i).drop_first() =~= ls.skip(i + 1));
    assert(ls.skip(i)[0] == ls[i]);
}

/// Reads the size that one line of `wm size` output gives, if it gives one.
fn size_in_line(cs: &Vec<char>, lo: usize, hi: usize, label: &Vec<char>) -> (res: Option<
    (u32, u32),
>)
    requires
        lo <= hi <= cs.len(),
        label@ == "Physical size: "@,
    ensures
        match size_of_line(cs@.subrange(lo as int, hi as int)) {
            Some((w, h)) => res == Some((w as u32, h as u32)),
            None => res is None,
        },
{
    let ghost line = cs@.subrange(lo as int, hi as int);
    if !range_starts_with(cs, lo, hi, label) {
        return None;
    }
    let (a, b) = trim_range(cs, lo + label.len(), hi);
    assert(cs@.subrange(lo + label.len(), hi as int) =~= line.skip(label.len() as int));
    let ghost r = trim(line.skip(label.len() as int));
    let k = find_char(cs, a, b, 'x');
    if k == b {
        return None;
    }
    let k2 = find_char(cs, k + 1, b, 'x');
    assert(r.skip(k - a + 1) =~= cs@.subrange(k + 1, b as int));
    if k2 != b {
        return None;
    }
    assert(r.take(k - a) =~= cs@.subrange(a as int, k as int));
    let w = parse_unsigned_range(cs, a, k, 0xFFFF_FFFF);
    let h = parse_unsigned_range(cs, k + 1, b, 0xFFFF_FFFF);
    match (w, h) {
        (Some(w), Some(h)) => Some((w as u32, h as u32)),
        _ => None,
    }
}

/// The screen size reported by `wm size` output, if a line reports one.
pub fn parse_window_size(output: &str) -> (res: Option<WindowSize>)
    ensures
        match window_size_of(output@) {
            Some((w, h)) => res matches Some(ws) && ws.width == w && ws.height == h,
            None => res is None,
        },
{
    let cs = chars_of(output);
    let lr = line_ranges(&cs);
    let ghost ls = lines(cs@);
    let label = chars_of("Physical size: ");
    let mut li: usize = 0;
    assert(ls.skip(0) =~= ls);
    while li < lr.len()
        invariant
            li <= lr.len(),
            cs@ == output@,
            ls == lines(cs@),
            lr.len() == ls.len(),
            forall|i: int|
                0 <= i < lr.len() ==> (#[trigger] lr[i]).0 <= lr[i].1 <= cs.len() && cs@.subrange(
                    lr[i].0 as int,
                    lr[i].1 as int,
                ) == ls[i],
            label@ == "Physical size: "@,
            first_size(ls) == first_size(ls.skip(li as int)),
        decreases lr.len() - li,
    {
        let (lo, hi) = lr[li];
        assert(cs@.subrange(lo as int, hi as int) == ls[li as int]);
        match size_in_line(&cs, lo, hi, &label) {
            Some((w, h)) => {
                assert(ls.skip(li as int)[0] == ls[li as int]);
                return Some(WindowSize { width: w, height: h });
            },
            None => {
                proof {
                    lemma_first_size_skip(ls, li as int);
                }
            },
        }
        li = li + 1;
    }
    assert(ls.skip(li as int).len() == 0);
    None
}


proof fn lemma_devices_of_lines_ready(ls: Seq<Seq<char>>)
    ensures
        forall|i: int| 0 <= i < devices_of_lines(ls).len() ==> (#[trigger] devices_of_lines(ls)[i]).status == "device"@,
    decreases ls.len(),
{
    if ls.len() > 0 {
        lemma_devices_of_lines_ready(ls.drop_last());
    }
}

/// Only devices ready for use are listed: each one's state is `device`
/// (offline and unauthorized devices are left out).
pub proof fn lemma_listed_devices_are_ready(output: Seq<char>)
    ensures
        forall|i: int| 0 <= i < device_list(output).len() ==> (#[trigger] device_list(output)[i]).status == "device"@,
{
    let ls = lines(output);
    if ls.len() > 0 {
        lemma_devices_of_lines_ready(ls.skip(1));
    }
}

} // verus!
