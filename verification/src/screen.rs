//! Screenshots: reading the JPEG that atx-agent returns, telling JPEG from
//! PNG, and the cache that lets many viewers share one capture per device.
use vstd::prelude::*;
use base64::Engine;
use crate::json::{json_member, json_member_text, json_str, json_str_text};
use crate::serial_map::SerialMap;
use crate::text::{chars_of, is_whitespace, is_whitespace_char, string_from_chars};

verus! {

#[verifier::external_type_specification]
#[verifier::external_body]
pub struct ExDecodeError(base64::DecodeError);

/// What `base64::engine::general_purpose::STANDARD.decode` makes of a text:
/// the decoded bytes, or `None` when it reports a `DecodeError`.
pub uninterp spec fn base64_standard_decoded(text: Seq<char>) -> Option<Seq<u8>>;

/// Calls `base64::engine::general_purpose::STANDARD.decode` (standard
/// alphabet, canonical padding required) on the text's bytes. Claimed: the
/// outcome is `base64_standard_decoded` of the text, a function of the text alone.
#[verifier::external_body]
fn base64_decode(text: &str) -> (res: Result<Vec<u8>, base64::DecodeError>)
    ensures
        match res {
            Ok(v) => base64_standard_decoded(text@) == Some(v@),
            Err(_) => base64_standard_decoded(text@) is None,
        },
{
    base64::engine::general_purpose::STANDARD.decode(text)
}

/// The text with every whitespace character removed.
pub open spec fn strip_whitespace(s: Seq<char>) -> Seq<char>
    decreases s.len(),
{
    if s.len() == 0 {
        Seq::empty()
    } else if is_whitespace(s.last()) {
        strip_whitespace(s.drop_last())
    } else {
        strip_whitespace(s.drop_last()).push(s.last())
    }
}

pub fn remove_whitespace(s: &str) -> (res: String)
    ensures
        res@ == strip_whitespace(s@),
{
    let cs = chars_of(s);
    let mut out: Vec<char> = Vec::new();
    let mut i: usize = 0;
    assert(cs@.take(0) =~= Seq::<char>::empty());
    while i < cs.len()
        invariant
            i <= cs.len(),
            out@ == strip_whitespace(cs@.take(i as int)),
        decreases cs.len() - i,
    {
        let c = cs[i];
        assert(cs@.take(i + 1).drop_last() =~= cs@.take(i as int));
        if !is_whitespace_char(c) {
            out.push(c);
        }
        i = i + 1;
    }
    assert(cs@.take(cs.len() as int) =~= cs@);
    string_from_chars(out.as_slice())
}

/// Why atx-agent gave no screenshot.
pub enum AtxError {
    /// The reply is not JSON.
    BadReply,
    /// The reply has no string `result`.
    NoData,
    /// The `result` is not valid base64.
    Decode(base64::DecodeError),
}

/// The screenshot in an atx-agent `takeScreenshot` reply: its `result`
/// string, with whitespace removed, decoded as standard base64.
pub fn screenshot_from_reply(reply: &str) -> (res: Result<Vec<u8>, AtxError>)
    ensures
        match json_member_text(reply@, "result"@) {
            None => res matches Err(AtxError::BadReply),
            Some(m) => match json_str_text(m) {
                None => res matches Err(AtxError::NoData),
                Some(b64) => match base64_standard_decoded(strip_whitespace(b64)) {
                    Some(bytes) => res matches Ok(v) && v@ == bytes,
                    None => res matches Err(AtxError::Decode(_)),
                },
            },
        },
{
    let member = match json_member(reply, "result") {
        Some(m) => m,
        None => return Err(AtxError::BadReply),
    };
    let b64 = match json_str(member.as_str()) {
        Some(s) => s,
        None => return Err(AtxError::NoData),
    };
    let cleaned = remove_whitespace(b64.as_str());
    match base64_decode(cleaned.as_str()) {
        Ok(v) => Ok(v),
        Err(e) => Err(AtxError::Decode(e)),
    }
}

/// Whether image bytes begin with the JPEG start-of-image marker (and hold more than two bytes).
pub open spec fn is_jpeg(data: Seq<u8>) -> bool {
    data.len() > 2 && data[0] == 0xFF && data[1] == 0xD8
}

/// The content type for screenshot bytes: JPEG (from atx-agent) or PNG (from `screencap`).
pub fn screenshot_mime(data: &[u8]) -> (res: &'static str)
    ensures
        res@ == (if is_jpeg(data@) {
            "image/jpeg"@
        } else {
            "image/png"@
        }),
{
    if data.len() > 2 && data[0] == 0xFF && data[1] == 0xD8 {
        "image/jpeg"
    } else {
        "image/png"
    }
}

/// How long a cached screenshot stays fresh, in nanoseconds.
pub const FRESH_NS: u64 = 5_000_000_000;

/// A captured screenshot and when it was taken (nanoseconds on a monotonic clock).
pub struct Shot {
    pub data: Vec<u8>,
    pub taken_at_ns: u64,
}

/// Whether a shot taken at `taken` is still fresh at `now`; time never runs
/// backwards, so a later `taken` counts as no time elapsed.
pub open spec fn is_fresh(taken: u64, now: u64) -> bool {
    (if now >= taken {
        now - taken
    } else {
        0
    }) < FRESH_NS
}

/// The mathematical content of a [`ScreenshotCache`].
pub struct CacheView {
    /// The shots held, by serial: their bytes and capture times.
    pub shots: Map<Seq<char>, (Seq<u8>, u64)>,
    /// Whether a viewer asked for a screenshot since the capture round last looked.
    pub watched: bool,
}

/// The latest screenshot of each device, and whether anyone is watching.
pub struct ScreenshotCache {
    shots: SerialMap<Shot>,
    watched: bool,
}

impl ScreenshotCache {
    pub closed spec fn view(&self) -> CacheView {
        CacheView {
            shots: self.shots@.map_values(|s: Shot| (s.data@, s.taken_at_ns)),
            watched: self.watched,
        }
    }

    /// A cache that holds nothing and that nobody has watched yet.
    pub fn new() -> (c: Self)
        ensures
            c@.shots == Map::<Seq<char>, (Seq<u8>, u64)>::empty(),
            !c@.watched,
    {
        let c = ScreenshotCache { shots: SerialMap::new(), watched: false };
        assert(c@.shots =~= Map::<Seq<char>, (Seq<u8>, u64)>::empty());
        c
    }

    /// The cached screenshot of a device, if one was taken less than five
    /// seconds before `now_ns`. Hit or miss, the cache notes that someone is
    /// watching.
    pub fn get(&mut self, serial: &str, now_ns: u64) -> (res: Option<Vec<u8>>)
        ensures
            final(self)@.shots == old(self)@.shots,
            final(self)@.watched,
            match res {
                Some(d) => old(self)@.shots.contains_key(serial@) && d@ == old(self)@.shots[serial@].0
                    && is_fresh(old(self)@.shots[serial@].1, now_ns),
                None => !old(self)@.shots.contains_key(serial@) || !is_fresh(
                    old(self)@.shots[serial@].1,
                    now_ns,
                ),
            },
    {
        self.watched = true;
        match self.shots.get(serial) {
            Some(shot) => {
                let elapsed = now_ns.saturating_sub(shot.taken_at_ns);
                if elapsed < FRESH_NS {
                    let d = shot.data.clone();
                    proof {
                        broadcast use vstd::std_specs::vec::vec_clone_deep_view_proof;

                        assert(d@ =~= shot.data@);
                    }
                    Some(d)
                } else {
                    None
                }
            },
            None => None,
        }
    }

    /// Whether anyone asked for a screenshot since the last call; the cache
    /// then counts as unwatched until the next request.
    pub fn take_watched(&mut self) -> (b: bool)
        ensures
            b == old(self)@.watched,
            !final(self)@.watched,
            final(self)@.shots == old(self)@.shots,
    {
        let b = self.watched;
        self.watched = false;
        b
    }

    /// Records a screenshot of a device taken at `now_ns`, replacing the previous one.
    pub fn record(&mut self, serial: String, data: Vec<u8>, now_ns: u64)
        ensures
            final(self)@.shots == old(self)@.shots.insert(serial@, (data@, now_ns)),
            final(self)@.watched == old(self)@.watched,
    {
        let ghost d = data@;
        self.shots.insert(serial, Shot { data, taken_at_ns: now_ns });
        assert(self@.shots =~= old(self)@.shots.insert(serial@, (d, now_ns)));
    }
}

/// Reading a device's screenshot within five seconds of recording it gives
/// back the recorded bytes; recording leaves every other device's entry as it was.
pub proof fn lemma_cache_read_after_record(
    before: Map<Seq<char>, (Seq<u8>, u64)>,
    serial: Seq<char>,
    data: Seq<u8>,
    taken: u64,
    now: u64,
    other: Seq<char>,
)
    requires
        taken <= now < taken + FRESH_NS,
        other != serial,
    ensures
        before.insert(serial, (data, taken)).contains_key(serial),
        before.insert(serial, (data, taken))[serial].0 == data,
        is_fresh(before.insert(serial, (data, taken))[serial].1, now),
        before.insert(serial, (data, taken)).contains_key(other) == before.contains_key(other),
        before.contains_key(other) ==> before.insert(serial, (data, taken))[other] == before[other],
{
}

} // verus!
