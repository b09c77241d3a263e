//! Incoming SMS: the records the store keeps, and how a message forwarded
//! from a phone is read when its body is the raw notification text.
use vstd::prelude::*;
use crate::adb::opt_string_view;
use crate::text::{
    is_newline, strip_cr,
    chars_of, first_index, lemma_first_index, lemma_first_index_is, line_ranges, lines,
    range_starts_with, starts_with, string_from_chars, string_of_range, trim, trim_range,
};

verus! {

/// A stored SMS.
pub struct SmsRow {
    pub id: i64,
    pub device_id: Option<String>,
    pub phone_number: Option<String>,
    pub sender: Option<String>,
    pub body: Option<String>,
    pub received_at: Option<String>,
    pub created_at: String,
}

/// An SMS as a phone forwards it.
pub struct NewSms {
    /// The serial of the phone that forwarded it (`device_serial` in the API).
    pub device_id: Option<String>,
    pub phone_number: Option<String>,
    pub sender: Option<String>,
    pub body: Option<String>,
    pub received_at: Option<String>,
    pub raw_body: Option<String>,
}

pub struct NewSmsView {
    pub device_id: Option<Seq<char>>,
    pub phone_number: Option<Seq<char>>,
    pub sender: Option<Seq<char>>,
    pub body: Option<Seq<char>>,
    pub received_at: Option<Seq<char>>,
    pub raw_body: Option<Seq<char>>,
}

impl View for NewSms {
    type V = NewSmsView;

    open spec fn view(&self) -> NewSmsView {
        NewSmsView {
            device_id: opt_string_view(self.device_id),
            phone_number: opt_string_view(self.phone_number),
            sender: opt_string_view(self.sender),
            body: opt_string_view(self.body),
            received_at: opt_string_view(self.received_at),
            raw_body: opt_string_view(self.raw_body),
        }
    }
}

/// Which of the two notification layouts a raw body follows.
pub enum SmsFormat {
    /// `sender`, the message, `Receiver: <label>`, the phone's tag, the time, a last line.
    Receiver,
    /// `sender`, the message, `mobileNN`, the time, the group.
    MobileTag,
}

/// What a raw notification body says.
pub struct SmsLayout {
    pub format: SmsFormat,
    pub sender: String,
    pub content: String,
    /// The SIM label after `Receiver:`, trimmed (empty for the tag layout).
    pub label: String,
    /// The phone's `mobile…` tag, when the layout gives one.
    pub tag: Option<String>,
    pub received_at: Option<String>,
}

pub struct SmsLayoutView {
    pub receiver_format: bool,
    pub sender: Seq<char>,
    pub content: Seq<char>,
    pub label: Seq<char>,
    pub tag: Option<Seq<char>>,
    pub received_at: Option<Seq<char>>,
}

impl View for SmsLayout {
    type V = SmsLayoutView;

    open spec fn view(&self) -> SmsLayoutView {
        SmsLayoutView {
            receiver_format: self.format is Receiver,
            sender: self.sender@,
            content: self.content@,
            label: self.label@,
            tag: opt_string_view(self.tag),
            received_at: opt_string_view(self.received_at),
        }
    }
}

/// Lines joined with `'\n'` between them.
pub open spec fn join_lines(ls: Seq<Seq<char>>) -> Seq<char>
    decreases ls.len(),
{
    if ls.len() == 0 {
        Seq::empty()
    } else if ls.len() == 1 {
        ls[0]
    } else {
        join_lines(ls.drop_last()) + seq!['\n'] + ls.last()
    }
}

pub open spec fn is_receiver_line(l: Seq<char>) -> bool {
    starts_with(l, "Receiver:"@)
}

pub open spec fn is_tag_line(l: Seq<char>) -> bool {
    starts_with(trim(l), "mobile"@)
}

/// Index of the first `Receiver:` line.
pub open spec fn receiver_index(ls: Seq<Seq<char>>) -> int {
    first_index(ls, |l: Seq<char>| is_receiver_line(l))
}

/// Index of the first line that, trimmed, starts with `mobile`.
pub open spec fn tag_index(ls: Seq<Seq<char>>) -> int {
    first_index(ls, |l: Seq<char>| is_tag_line(l))
}

/// The raw bodies on which reading the layout would slice a line range
/// backwards: the label or tag line is the very first line.
pub open spec fn sms_malformed(raw: Seq<char>) -> bool {
    let ls = lines(raw);
    &&& ls.len() >= 5
    &&& (receiver_index(ls) == 0 || (receiver_index(ls) >= ls.len() && tag_index(ls) == 0))
}

/// What a raw body of at least five lines says: in the `Receiver:` layout
/// the sender is the first line, the message the lines before the
/// `Receiver:` line, the label the rest of that line, the tag the next line
/// (when it starts with `mobile`) and the time the line after; in the tag
/// layout the message runs up to the first `mobile…` line and the time
/// follows it. Every piece is trimmed but the message.
pub open spec fn sms_layout_of(raw: Seq<char>) -> Option<SmsLayoutView> {
    let ls = lines(raw);
    let r = receiver_index(ls);
    let t = tag_index(ls);
    if ls.len() < 5 {
        None
    } else if r < ls.len() {
        Some(
            SmsLayoutView {
                receiver_format: true,
                sender: trim(ls[0]),
                content: join_lines(ls.subrange(1, r)),
                label: trim(ls[r].skip("Receiver:"@.len() as int)),
                tag: if r + 1 < ls.len() && is_tag_line(ls[r + 1]) {
                    Some(trim(ls[r + 1]))
                } else {
                    None
                },
                received_at: if r + 2 < ls.len() {
                    Some(trim(ls[r + 2]))
                } else {
                    None
                },
            },
        )
    } else if t < ls.len() {
        Some(
            SmsLayoutView {
                receiver_format: false,
                sender: trim(ls[0]),
                content: join_lines(ls.subrange(1, t)),
                label: Seq::empty(),
                tag: Some(trim(ls[t])),
                received_at: if t + 1 < ls.len() {
                    Some(trim(ls[t + 1]))
                } else {
                    None
                },
            },
        )
    } else {
        None
    }
}

/// The trimmed line `cs[lo..hi]` as a string.
fn trimmed_string(cs: &Vec<char>, lo: usize, hi: usize) -> (res: String)
    requires
        lo <= hi <= cs.len(),
    ensures
        res@ == trim(cs@.subrange(lo as int, hi as int)),
{
    let (a, b) = trim_range(cs, lo, hi);
    string_of_range(cs, a, b)
}

/// The lines `lr[from..to]` of `cs`, joined with `'\n'`.
fn join_line_range(cs: &Vec<char>, lr: &Vec<(usize, usize)>, from: usize, to: usize) -> (res:
    String)
    requires
        1 <= from <= to <= lr.len(),
        forall|i: int| 0 <= i < lr.len() ==> (#[trigger] lr[i]).0 <= lr[i].1 <= cs.len(),
    ensures
        res@ == join_lines(
            Seq::new(lr.len() as nat, |i: int| cs@.subrange(lr[i].0 as int, lr[i].1 as int)).subrange(
                from as int,
                to as int,
            ),
        ),
{
    let ghost ls = Seq::new(lr.len() as nat, |i: int| cs@.subrange(lr[i].0 as int, lr[i].1 as int));
    let mut out: Vec<char> = Vec::new();
    let mut i = from;
    assert(ls.subrange(from as int, from as int).len() == 0);
    while i < to
        invariant
            from <= i <= to <= lr.len(),
            ls == Seq::new(lr.len() as nat, |i: int| cs@.subrange(lr[i].0 as int, lr[i].1 as int)),
            forall|i: int| 0 <= i < lr.len() ==> (#[trigger] lr[i]).0 <= lr[i].1 <= cs.len(),
            out@ == join_lines(ls.subrange(from as int, i as int)),
        decreases to - i,
    {
        let ghost sub = ls.subrange(from as int, i + 1);
        assert(sub.drop_last() =~= ls.subrange(from as int, i as int));
        assert(sub.last() == ls[i as int]);
        let ghost before = out@;
        if i > from {
            out.push('\n');
        }
        let (a, b) = lr[i];
        let mut j = a;
        while j < b
            invariant
                a <= j <= b <= cs.len(),
                out@ == before + (if i > from {
                    seq!['\n']
                } else {
                    Seq::empty()
                }) + cs@.subrange(a as int, j as int),
            decreases b - j,
        {
            out.push(cs[j]);
            j = j + 1;
            assert(cs@.subrange(a as int, j as int) =~= cs@.subrange(a as int, j - 1).push(
                cs@[j - 1],
            ));
        }
        proof {
            if i > from {
                assert(out@ =~= join_lines(sub.drop_last()) + seq!['\n'] + sub.last());
            } else {
                assert(sub.len() == 1);
                assert(out@ =~= sub[0]);
            }
        }
        i = i + 1;
    }
    string_from_chars(out.as_slice())
}

/// Whether reading the layout of this raw body would slice a line range
/// backwards (the `Receiver:` or tag line is the very first line).
pub fn raw_sms_is_malformed(raw: &str) -> (b: bool)
    ensures
        b == sms_malformed(raw@),
{
    let cs = chars_of(raw);
    let lr = line_ranges(&cs);
    if lr.len() < 5 {
        return false;
    }
    let (r, t) = layout_indices(&cs, &lr);
    r == 0 || (r == lr.len() && t == 0)
}

/// Whether the line `cs[lo..hi]`, trimmed, starts with `mobile`.
fn line_is_tag(cs: &Vec<char>, lo: usize, hi: usize, mobile: &Vec<char>) -> (b: bool)
    requires
        lo <= hi <= cs.len(),
        mobile@ == "mobile"@,
    ensures
        b == is_tag_line(cs@.subrange(lo as int, hi as int)),
{
    let (a, b) = trim_range(cs, lo, hi);
    range_starts_with(cs, a, b, mobile)
}

/// The indices of the first `Receiver:` line and of the first tag line.
fn layout_indices(cs: &Vec<char>, lr: &Vec<(usize, usize)>) -> (res: (usize, usize))
    requires
        lr.len() == lines(cs@).len(),
        forall|i: int|
            0 <= i < lr.len() ==> (#[trigger] lr[i]).0 <= lr[i].1 <= cs.len() && cs@.subrange(
                lr[i].0 as int,
                lr[i].1 as int,
            ) == lines(cs@)[i],
    ensures
        res.0 == receiver_index(lines(cs@)),
        res.1 == tag_index(lines(cs@)),
        res.0 <= lr.len(),
        res.1 <= lr.len(),
{
    let ghost ls = lines(cs@);
    let receiver = chars_of("Receiver:");
    let mobile = chars_of("mobile");
    let mut r: usize = 0;
    while r < lr.len() && !range_starts_with(cs, lr[r].0, lr[r].1, &receiver)
        invariant
            r <= lr.len(),
            ls == lines(cs@),
            lr.len() == ls.len(),
            forall|i: int|
                0 <= i < lr.len() ==> (#[trigger] lr[i]).0 <= lr[i].1 <= cs.len() && cs@.subrange(
                    lr[i].0 as int,
                    lr[i].1 as int,
                ) == ls[i],
            receiver@ == "Receiver:"@,
            forall|j: int| 0 <= j < r ==> !is_receiver_line(#[trigger] ls[j]),
        decreases lr.len() - r,
    {
        r = r + 1;
    }
    proof {
        assert forall|j: int| 0 <= j < r implies !(|l: Seq<char>| is_receiver_line(l))(
            #[trigger] ls[j],
        ) by {}
        if r < lr.len() {
            assert(lr[r as int].0 <= lr[r as int].1);
        }
        lemma_first_index_is(ls, |l: Seq<char>| is_receiver_line(l), r as int);
    }
    let mut t: usize = 0;
    while t < lr.len() && !line_is_tag(cs, lr[t].0, lr[t].1, &mobile)
        invariant
            t <= lr.len(),
            ls == lines(cs@),
            lr.len() == ls.len(),
            forall|i: int|
                0 <= i < lr.len() ==> (#[trigger] lr[i]).0 <= lr[i].1 <= cs.len() && cs@.subrange(
                    lr[i].0 as int,
                    lr[i].1 as int,
                ) == ls[i],
            mobile@ == "mobile"@,
            forall|j: int| 0 <= j < t ==> !is_tag_line(#[trigger] ls[j]),
        decreases lr.len() - t,
    {
        t = t + 1;
    }
    proof {
        assert forall|j: int| 0 <= j < t implies !(|l: Seq<char>| is_tag_line(l))(
            #[trigger] ls[j],
        ) by {}
        if t < lr.len() {
            assert(lr[t as int].0 <= lr[t as int].1);
        }
        lemma_first_index_is(ls, |l: Seq<char>| is_tag_line(l), t as int);
    }
    (r, t)
}

/// A line as `str::lines` hands it out: no `'\n'` in it and no `'\r'` at its end.
pub open spec fn plain_line(l: Seq<char>) -> bool {
    &&& forall|i: int| 0 <= i < l.len() ==> l[i] != '\n'
    &&& !(l.len() > 0 && l.last() == '\r')
}

proof fn lemma_join_lines_front(ls: Seq<Seq<char>>)
    requires
        ls.len() >= 2,
    ensures
        join_lines(ls) == ls[0] + seq!['\n'] + join_lines(ls.skip(1)),
    decreases ls.len(),
{
    if ls.len() == 2 {
        assert(ls.drop_last().len() == 1);
        assert(ls.skip(1).len() == 1);
        assert(join_lines(ls.skip(1)) == ls[1]);
        assert(join_lines(ls.drop_last()) == ls[0]);
    } else {
        lemma_join_lines_front(ls.drop_last());
        assert(ls.drop_last().skip(1) =~= ls.skip(1).drop_last());
        assert(ls.skip(1).last() == ls.last());
        assert(join_lines(ls.skip(1)) == join_lines(ls.skip(1).drop_last()) + seq!['\n']
            + ls.skip(1).last());
        assert(join_lines(ls) =~= ls[0] + seq!['\n'] + join_lines(ls.skip(1)));
    }
}

/// Joining plain lines with `'\n'` and splitting the text into lines again
/// gives the same lines, as long as the last line is not empty.
pub proof fn lemma_lines_of_joined(ls: Seq<Seq<char>>)
    requires
        forall|i: int| 0 <= i < ls.len() ==> plain_line(#[trigger] ls[i]),
        ls.len() > 0 ==> ls.last().len() > 0,
    ensures
        lines(join_lines(ls)) == ls,
    decreases ls.len(),
{
    if ls.len() == 1 {
        let a = ls[0];
        assert(plain_line(a));
        lemma_first_index_is(a, |c: char| is_newline(c), a.len() as int);
        assert(lines(a) == seq![a]);
        assert(lines(join_lines(ls)) =~= ls);
    } else if ls.len() >= 2 {
        lemma_join_lines_front(ls);
        let a = ls[0];
        assert(plain_line(a));
        let rest = join_lines(ls.skip(1));
        let t = a + seq!['\n'] + rest;
        assert forall|j: int| 0 <= j < a.len() implies !(|c: char| is_newline(c))(#[trigger] t[j]) by {
            assert(t[j] == a[j]);
        }
        assert(t[a.len() as int] == '\n');
        lemma_first_index_is(t, |c: char| is_newline(c), a.len() as int);
        assert(t.take(a.len() as int) =~= a);
        assert(t.skip(a.len() as int + 1) =~= rest);
        assert forall|i: int| 0 <= i < ls.skip(1).len() implies plain_line(#[trigger] ls.skip(1)[i]) by {
            assert(ls.skip(1)[i] == ls[i + 1]);
        }
        lemma_lines_of_joined(ls.skip(1));
        assert(lines(t) == seq![strip_cr(a)] + lines(rest));
        assert(strip_cr(a) == a);
        assert(lines(t) =~= ls);
    }
}

/// Reading back a `Receiver:` notification. The phone writes the sender, the
/// message lines, `Receiver:` and the SIM label, the phone's tag line, the
/// time and a last line, one per line. Reading the body gives the sender,
/// the message as written, the label, the tag (when that line is a
/// `mobile…` tag) and the time, each trimmed but the message.
pub proof fn lemma_receiver_layout_reads_back(
    sender: Seq<char>,
    message: Seq<Seq<char>>,
    label: Seq<char>,
    tag: Seq<char>,
    time: Seq<char>,
    last: Seq<char>,
)
    requires
        plain_line(sender),
        forall|i: int| 0 <= i < message.len() ==> plain_line(#[trigger] message[i]),
        plain_line("Receiver:"@ + label),
        plain_line(tag),
        plain_line(time),
        plain_line(last),
        last.len() > 0,
        !is_receiver_line(sender),
        forall|i: int| 0 <= i < message.len() ==> !is_receiver_line(#[trigger] message[i]),
    ensures
        sms_layout_of(
            join_lines(seq![sender] + message + seq!["Receiver:"@ + label, tag, time, last]),
        ) == Some(
            SmsLayoutView {
                receiver_format: true,
                sender: trim(sender),
                content: join_lines(message),
                label: trim(label),
                tag: if is_tag_line(tag) {
                    Some(trim(tag))
                } else {
                    None
                },
                received_at: Some(trim(time)),
            },
        ),
{
    reveal_strlit("Receiver:");
    let ls = seq![sender] + message + seq!["Receiver:"@ + label, tag, time, last];
    let r: int = message.len() as int + 1;
    assert forall|i: int| 0 <= i < ls.len() implies plain_line(#[trigger] ls[i]) by {
        if 1 <= i < r {
            assert(ls[i] == message[i - 1]);
        }
    }
    assert(ls.last() == last);
    lemma_lines_of_joined(ls);
    assert(ls[r] == "Receiver:"@ + label);
    assert(("Receiver:"@ + label).take(9) =~= "Receiver:"@);
    assert forall|j: int| 0 <= j < r implies !(|l: Seq<char>| is_receiver_line(l))(#[trigger] ls[j]) by {
        if j >= 1 {
            assert(ls[j] == message[j - 1]);
        }
    }
    lemma_first_index_is(ls, |l: Seq<char>| is_receiver_line(l), r);
    assert(ls.subrange(1, r) =~= message);
    assert(ls[r].skip("Receiver:"@.len() as int) =~= label);
    assert(ls[r + 1] == tag);
    assert(ls[r + 2] == time);
}

/// Reading back a tag notification. The phone writes the sender, at least
/// one message line, its `mobile…` tag, the time and a group line, and no
/// `Receiver:` line. Reading the body gives the sender, the message as
/// written, the tag and the time, each trimmed but the message.
pub proof fn lemma_tag_layout_reads_back(
    sender: Seq<char>,
    message: Seq<Seq<char>>,
    tag: Seq<char>,
    time: Seq<char>,
    group: Seq<char>,
)
    requires
        plain_line(sender),
        forall|i: int| 0 <= i < message.len() ==> plain_line(#[trigger] message[i]),
        plain_line(tag),
        plain_line(time),
        plain_line(group),
        group.len() > 0,
        message.len() >= 1,
        is_tag_line(tag),
        !is_tag_line(sender),
        forall|i: int| 0 <= i < message.len() ==> !is_tag_line(#[trigger] message[i]),
        !is_receiver_line(sender),
        forall|i: int| 0 <= i < message.len() ==> !is_receiver_line(#[trigger] message[i]),
        !is_receiver_line(tag),
        !is_receiver_line(time),
        !is_receiver_line(group),
    ensures
        sms_layout_of(join_lines(seq![sender] + message + seq![tag, time, group])) == Some(
            SmsLayoutView {
                receiver_format: false,
                sender: trim(sender),
                content: join_lines(message),
                label: Seq::empty(),
                tag: Some(trim(tag)),
                received_at: Some(trim(time)),
            },
        ),
{
    let ls = seq![sender] + message + seq![tag, time, group];
    let t: int = message.len() as int + 1;
    assert forall|i: int| 0 <= i < ls.len() implies plain_line(#[trigger] ls[i]) by {
        if 1 <= i < t {
            assert(ls[i] == message[i - 1]);
        }
    }
    assert(ls.last() == group);
    lemma_lines_of_joined(ls);
    assert forall|j: int| 0 <= j < ls.len() implies !(|l: Seq<char>| is_receiver_line(l))(
        #[trigger] ls[j],
    ) by {
        if 1 <= j < t {
            assert(ls[j] == message[j - 1]);
        }
    }
    lemma_first_index_is(ls, |l: Seq<char>| is_receiver_line(l), ls.len() as int);
    assert forall|j: int| 0 <= j < t implies !(|l: Seq<char>| is_tag_line(l))(#[trigger] ls[j]) by {
        if j >= 1 {
            assert(ls[j] == message[j - 1]);
        }
    }
    assert(ls[t] == tag);
    lemma_first_index_is(ls, |l: Seq<char>| is_tag_line(l), t);
    assert(ls.subrange(1, t) =~= message);
    assert(ls[t + 1] == time);
}

/// Reads a raw notification body of at least five lines.
pub fn sms_layout(raw: &str) -> (res: Option<SmsLayout>)
    requires
        !sms_malformed(raw@),
    ensures
        match sms_layout_of(raw@) {
            Some(v) => res matches Some(l) && l@ == v,
            None => res is None,
        },
{
    let cs = chars_of(raw);
    let lr = line_ranges(&cs);
    let ghost ls = lines(cs@);
    if lr.len() < 5 {
        return None;
    }
    proof {
        assert(ls =~= Seq::new(lr.len() as nat, |i: int| cs@.subrange(lr[i].0 as int, lr[i].1 as int)));
    }
    let (r, t) = layout_indices(&cs, &lr);
    let n = lr.len();
    let sender = trimmed_string(&cs, lr[0].0, lr[0].1);
    if r < n {
        let content = join_line_range(&cs, &lr, 1, r);
        let (ra, rb) = lr[r];
        let receiver_len: usize = 9;
        proof {
            reveal_strlit("Receiver:");
            assert(is_receiver_line(ls[r as int])) by {
                lemma_first_index(ls, |l: Seq<char>| is_receiver_line(l));
            }
            assert(cs@.subrange(ra + 9, rb as int) =~= ls[r as int].skip(9));
        }
        let label = trimmed_string(&cs, ra + receiver_len, rb);
        let tag = if n - r > 1 {
            let (ta, tb) = lr[r + 1];
            let (a, b) = trim_range(&cs, ta, tb);
            let mobile = chars_of("mobile");
            if range_starts_with(&cs, a, b, &mobile) {
                Some(string_of_range(&cs, a, b))
            } else {
                None
            }
        } else {
            None
        };
        let received_at = if n - r > 2 {
            Some(trimmed_string(&cs, lr[r + 2].0, lr[r + 2].1))
        } else {
            None
        };
        Some(SmsLayout { format: SmsFormat::Receiver, sender, content, label, tag, received_at })
    } else if t < n {
        proof {
            lemma_first_index(ls, |l: Seq<char>| is_tag_line(l));
        }
        let content = join_line_range(&cs, &lr, 1, t);
        let tag = trimmed_string(&cs, lr[t].0, lr[t].1);
        let received_at = if n - t > 1 {
            Some(trimmed_string(&cs, lr[t + 1].0, lr[t + 1].1))
        } else {
            None
        };
        let label = string_from_chars(Vec::<char>::new().as_slice());
        Some(
            SmsLayout {
                format: SmsFormat::MobileTag,
                sender,
                content,
                label,
                tag: Some(tag),
                received_at,
            },
        )
    } else {
        None
    }
}


fn clone_opt(o: &Option<String>) -> (res: Option<String>)
    ensures
        opt_string_view(res) == opt_string_view(*o),
{
    match o {
        Some(s) => Some(s.clone()),
        None => None,
    }
}

/// The SIM label to look up: the `Receiver:` label, when it is not empty.
pub open spec fn label_query_of(l: SmsLayoutView) -> Option<Seq<char>> {
    if l.receiver_format && l.label.len() > 0 {
        Some(l.label)
    } else {
        None
    }
}

pub fn label_query(layout: &SmsLayout) -> (res: Option<String>)
    ensures
        opt_string_view(res) == label_query_of(layout@),
{
    match layout.format {
        SmsFormat::Receiver => {
            if layout.label.as_str().is_empty() {
                None
            } else {
                Some(layout.label.clone())
            }
        },
        SmsFormat::MobileTag => None,
    }
}

/// The phone tag to look up: in the tag layout always, in the `Receiver:`
/// layout only while no device is known.
pub open spec fn tag_query_of(l: SmsLayoutView, device_known: bool) -> Option<Seq<char>> {
    if l.receiver_format && device_known {
        None
    } else {
        l.tag
    }
}

/// Whether the device of an SMS is known once its label was looked up: the
/// label matched a card, or the phone named its device itself.
pub open spec fn device_known_of(sms: NewSmsView, label_hit: Option<(Seq<char>, Seq<char>)>) -> bool {
    label_hit is Some || sms.device_id is Some
}

/// The phone tag to look up for an SMS with this layout, given what the
/// lookup of its label found (the card's device and number).
pub fn tag_query(layout: &SmsLayout, sms: &NewSms, label_hit: &Option<(String, String)>) -> (res: Option<String>)
    ensures
        opt_string_view(res) == tag_query_of(
            layout@,
            device_known_of(sms@, opt_pair_view(*label_hit)),
        ),
{
    let device_known = label_hit.is_some() || sms.device_id.is_some();
    match layout.format {
        SmsFormat::Receiver => {
            if device_known {
                None
            } else {
                clone_opt(&layout.tag)
            }
        },
        SmsFormat::MobileTag => clone_opt(&layout.tag),
    }
}

pub open spec fn opt_pair_view(o: Option<(String, String)>) -> Option<(Seq<char>, Seq<char>)> {
    match o {
        Some((a, b)) => Some((a@, b@)),
        None => None,
    }
}

/// The SMS once its raw body is read: a label match gives the device and
/// the number, a tag match the device; the sender and the time fill in
/// only what the phone left out; the message replaces the body, which is
/// kept as the raw body.
pub open spec fn settled(
    b: NewSmsView,
    l: SmsLayoutView,
    label_hit: Option<(Seq<char>, Seq<char>)>,
    tag_hit: Option<Seq<char>>,
) -> NewSmsView {
    let (d1, p1) = match label_hit {
        Some((d, p)) => (Some(d), Some(p)),
        None => (b.device_id, b.phone_number),
    };
    NewSmsView {
        device_id: match tag_hit {
            Some(d) => Some(d),
            None => d1,
        },
        phone_number: p1,
        sender: if b.sender is None {
            Some(l.sender)
        } else {
            b.sender
        },
        body: Some(l.content),
        received_at: if b.received_at is None {
            l.received_at
        } else {
            b.received_at
        },
        raw_body: b.body,
    }
}

/// What settling an SMS keeps and what it changes. The number comes from a
/// card that the label matched, and otherwise stays the one the phone sent.
/// The device comes from a tag match, else from a label match, and otherwise
/// stays the one the phone named. A sender or time the phone sent is kept;
/// only a missing one is taken from the layout. The message becomes the
/// body, and the raw body is the body the phone sent.
pub proof fn lemma_settled_keeps_what_was_sent(
    b: NewSmsView,
    l: SmsLayoutView,
    label_hit: Option<(Seq<char>, Seq<char>)>,
    tag_hit: Option<Seq<char>>,
)
    ensures
        label_hit is None ==> settled(b, l, label_hit, tag_hit).phone_number == b.phone_number,
        label_hit matches Some((d, p)) ==> settled(b, l, label_hit, tag_hit).phone_number == Some(p),
        label_hit is None && tag_hit is None ==> settled(b, l, label_hit, tag_hit).device_id
            == b.device_id,
        tag_hit matches Some(t) ==> settled(b, l, label_hit, tag_hit).device_id == Some(t),
        tag_hit is None ==> (label_hit matches Some((d, p)) ==> settled(b, l, label_hit, tag_hit).device_id
            == Some(d)),
        b.sender is Some ==> settled(b, l, label_hit, tag_hit).sender == b.sender,
        b.sender is None ==> settled(b, l, label_hit, tag_hit).sender == Some(l.sender),
        b.received_at is Some ==> settled(b, l, label_hit, tag_hit).received_at == b.received_at,
        b.received_at is None ==> settled(b, l, label_hit, tag_hit).received_at == l.received_at,
        settled(b, l, label_hit, tag_hit).body == Some(l.content),
        settled(b, l, label_hit, tag_hit).raw_body == b.body,
{
}

/// Fills in an SMS from what its raw body says and from what the lookups found.
pub fn settle_sms(
    body: NewSms,
    layout: &SmsLayout,
    label_hit: Option<(String, String)>,
    tag_hit: Option<String>,
) -> (res: NewSms)
    ensures
        res@ == settled(body@, layout@, opt_pair_view(label_hit), opt_string_view(tag_hit)),
        label_hit is None ==> res@.phone_number == body@.phone_number,
        label_hit is None && tag_hit is None ==> res@.device_id == body@.device_id,
        res@.raw_body == body@.body,
        res@.body == Some(layout@.content),
{
    let NewSms { device_id, phone_number, sender, body: raw, received_at, raw_body: _ } = body;
    let (device_id, phone_number) = match label_hit {
        Some((d, p)) => (Some(d), Some(p)),
        None => (device_id, phone_number),
    };
    let device_id = match tag_hit {
        Some(d) => Some(d),
        None => device_id,
    };
    let sender = match sender {
        Some(s) => Some(s),
        None => Some(layout.sender.clone()),
    };
    let received_at = match received_at {
        Some(t) => Some(t),
        None => clone_opt(&layout.received_at),
    };
    NewSms {
        device_id,
        phone_number,
        sender,
        body: Some(layout.content.clone()),
        received_at,
        raw_body: raw,
    }
}

/// The device whose current number to look up: one is known but no number.
pub open spec fn current_phone_query_of(s: NewSmsView) -> Option<Seq<char>> {
    if s.device_id is Some && s.phone_number is None {
        s.device_id
    } else {
        None
    }
}

pub fn current_phone_query(sms: &NewSms) -> (res: Option<String>)
    ensures
        opt_string_view(res) == current_phone_query_of(sms@),
{
    match (&sms.device_id, &sms.phone_number) {
        (Some(d), None) => Some(d.clone()),
        _ => None,
    }
}

/// Takes the number that the device currently uses, when the SMS has a device but no number.
pub fn with_current_phone(sms: NewSms, phone: Option<String>) -> (res: NewSms)
    ensures
        res@ == (if current_phone_query_of(sms@) is Some {
            NewSmsView { phone_number: opt_string_view(phone), ..sms@ }
        } else {
            sms@
        }),
{
    if sms.device_id.is_some() && sms.phone_number.is_none() {
        NewSms { phone_number: phone, ..sms }
    } else {
        sms
    }
}


/// How many messages a query returns when it gives no limit.
pub const DEFAULT_SMS_LIMIT: u32 = 5;

/// The number of messages to return: the limit asked for, or five.
pub fn sms_query_limit(limit: Option<u32>) -> (res: u32)
    ensures
        res == match limit {
            Some(n) => n,
            None => DEFAULT_SMS_LIMIT,
        },
{
    match limit {
        Some(n) => n,
        None => DEFAULT_SMS_LIMIT,
    }
}

} // verus!
