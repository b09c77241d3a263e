//! The argument lists of the `adb` and switch-script invocations.
use vstd::prelude::*;
use crate::text::{
    chars_of, decimal, decimal_signed, push_decimal, push_decimal_signed, string_from_chars,
};

verus! {

pub open spec fn arg_views(v: Seq<String>) -> Seq<Seq<char>> {
    v.map_values(|s: String| s@)
}

fn owned(s: &str) -> (res: String)
    ensures
        res@ == s@,
{
    s.to_owned()
}

/// The decimal notation of an unsigned number, as `Display` writes it.
pub fn decimal_string(n: u64) -> (res: String)
    ensures
        res@ == decimal(n as nat),
{
    let mut v: Vec<char> = Vec::new();
    push_decimal(&mut v, n);
    assert(v@ =~= decimal(n as nat));
    string_from_chars(v.as_slice())
}

/// The decimal notation of a signed number, as `Display` writes it.
pub fn signed_decimal_string(n: i64) -> (res: String)
    ensures
        res@ == decimal_signed(n as int),
{
    let mut v: Vec<char> = Vec::new();
    push_decimal_signed(&mut v, n);
    assert(v@ =~= decimal_signed(n as int));
    string_from_chars(v.as_slice())
}

fn prefixed_decimal(prefix: &str, n: u64) -> (res: String)
    ensures
        res@ == prefix@ + decimal(n as nat),
{
    let mut v = chars_of(prefix);
    push_decimal(&mut v, n);
    string_from_chars(v.as_slice())
}

/// `tcp:PORT`, the address form of `adb forward` and `adb reverse`.
pub fn tcp_address(port: u16) -> (res: String)
    ensures
        res@ == "tcp:"@ + decimal(port as nat),
{
    prefixed_decimal("tcp:", port as u64)
}

/// `127.0.0.1:PORT`, where a forwarded port is reached.
pub fn loopback_address(port: u16) -> (res: String)
    ensures
        res@ == "127.0.0.1:"@ + decimal(port as nat),
{
    prefixed_decimal("127.0.0.1:", port as u64)
}

/// `adb devices -l`
pub fn devices_args() -> (res: Vec<String>)
    ensures
        arg_views(res@) == seq!["devices"@, "-l"@],
{
    let res = vec![owned("devices"), owned("-l")];
    assert(arg_views(res@) =~= seq!["devices"@, "-l"@]);
    res
}

/// `adb -s SERIAL exec-out screencap -p`
pub fn screencap_args(serial: &str) -> (res: Vec<String>)
    ensures
        arg_views(res@) == seq!["-s"@, serial@, "exec-out"@, "screencap"@, "-p"@],
{
    let res = vec![owned("-s"), owned(serial), owned("exec-out"), owned("screencap"), owned("-p")];
    assert(arg_views(res@) =~= seq!["-s"@, serial@, "exec-out"@, "screencap"@, "-p"@]);
    res
}

/// `adb -s SERIAL shell input tap X Y`
pub fn tap_args(serial: &str, x: i32, y: i32) -> (res: Vec<String>)
    ensures
        arg_views(res@) == seq![
            "-s"@,
            serial@,
            "shell"@,
            "input"@,
            "tap"@,
            decimal_signed(x as int),
            decimal_signed(y as int),
        ],
{
    let res = vec![
        owned("-s"),
        owned(serial),
        owned("shell"),
        owned("input"),
        owned("tap"),
        signed_decimal_string(x as i64),
        signed_decimal_string(y as i64),
    ];
    assert(arg_views(res@) =~= seq![
        "-s"@,
        serial@,
        "shell"@,
        "input"@,
        "tap"@,
        decimal_signed(x as int),
        decimal_signed(y as int),
    ]);
    res
}

/// `adb -s SERIAL shell input swipe X1 Y1 X2 Y2 DURATION_MS`
pub fn swipe_args(serial: &str, x1: i32, y1: i32, x2: i32, y2: i32, duration_ms: u64) -> (res:
    Vec<String>)
    ensures
        arg_views(res@) == seq![
            "-s"@,
            serial@,
            "shell"@,
            "input"@,
            "swipe"@,
            decimal_signed(x1 as int),
            decimal_signed(y1 as int),
            decimal_signed(x2 as int),
            decimal_signed(y2 as int),
            decimal(duration_ms as nat),
        ],
{
    let res = vec![
        owned("-s"),
        owned(serial),
        owned("shell"),
        owned("input"),
        owned("swipe"),
        signed_decimal_string(x1 as i64),
        signed_decimal_string(y1 as i64),
        signed_decimal_string(x2 as i64),
        signed_decimal_string(y2 as i64),
        decimal_string(duration_ms),
    ];
    assert(arg_views(res@) =~= seq![
        "-s"@,
        serial@,
        "shell"@,
        "input"@,
        "swipe"@,
        decimal_signed(x1 as int),
        decimal_signed(y1 as int),
        decimal_signed(x2 as int),
        decimal_signed(y2 as int),
        decimal(duration_ms as nat),
    ]);
    res
}

/// `adb -s SERIAL shell input keyevent KEYCODE`
pub fn keyevent_args(serial: &str, keycode: u32) -> (res: Vec<String>)
    ensures
        arg_views(res@) == seq![
            "-s"@,
            serial@,
            "shell"@,
            "input"@,
            "keyevent"@,
            decimal(keycode as nat),
        ],
{
    let res = vec![
        owned("-s"),
        owned(serial),
        owned("shell"),
        owned("input"),
        owned("keyevent"),
        decimal_string(keycode as u64),
    ];
    assert(arg_views(res@) =~= seq![
        "-s"@,
        serial@,
        "shell"@,
        "input"@,
        "keyevent"@,
        decimal(keycode as nat),
    ]);
    res
}

/// How `input text` needs one character written: a space as `%s`, and a
/// quote, `&`, `<`, `>`, `|`, `;` or a parenthesis behind a backslash.
pub open spec fn escape_char(c: char) -> Seq<char> {
    if c == ' ' {
        seq!['%', 's']
    } else if c == '\'' || c == '"' || c == '&' || c == '<' || c == '>' || c == '|' || c == ';'
        || c == '(' || c == ')' {
        seq!['\\', c]
    } else {
        seq![c]
    }
}

/// A text written for `adb shell input text`, character by character.
pub open spec fn escape_input_text(s: Seq<char>) -> Seq<char>
    decreases s.len(),
{
    if s.len() == 0 {
        Seq::empty()
    } else {
        escape_input_text(s.drop_last()) + escape_char(s.last())
    }
}

/// Escapes a text for `adb shell input text`.
pub fn escape_text(text: &str) -> (res: String)
    ensures
        res@ == escape_input_text(text@),
{
    let cs = chars_of(text);
    let mut out: Vec<char> = Vec::new();
    let mut i: usize = 0;
    assert(cs@.take(0) =~= Seq::<char>::empty());
    while i < cs.len()
        invariant
            i <= cs.len(),
            cs@ == text@,
            out@ == escape_input_text(cs@.take(i as int)),
        decreases cs.len() - i,
    {
        let c = cs[i];
        assert(cs@.take(i + 1).drop_last() =~= cs@.take(i as int));
        let ghost before = out@;
        if c == ' ' {
            out.push('%');
            out.push('s');
        } else if c == '\'' || c == '"' || c == '&' || c == '<' || c == '>' || c == '|' || c == ';'
            || c == '(' || c == ')' {
            out.push('\\');
            out.push(c);
        } else {
            out.push(c);
        }
        assert(out@ =~= before + escape_char(c));
        i = i + 1;
    }
    assert(cs@.take(cs.len() as int) =~= cs@);
    string_from_chars(out.as_slice())
}

/// An escaped text holds no space: every space became `%s`.
pub proof fn lemma_escaped_text_has_no_space(s: Seq<char>)
    ensures
        forall|i: int| 0 <= i < escape_input_text(s).len() ==> #[trigger] escape_input_text(s)[i] != ' ',
    decreases s.len(),
{
    if s.len() > 0 {
        lemma_escaped_text_has_no_space(s.drop_last());
        let a = escape_input_text(s.drop_last());
        let b = escape_char(s.last());
        assert forall|i: int| 0 <= i < escape_input_text(s).len() implies #[trigger] escape_input_text(s)[i] != ' ' by {
            if i < a.len() {
                assert(escape_input_text(s)[i] == a[i]);
            } else {
                assert(escape_input_text(s)[i] == b[i - a.len()]);
            }
        }
    }
}

/// Characters that the shell behind `input text` would read specially.
pub open spec fn shell_special(c: char) -> bool {
    c == '\'' || c == '"' || c == '&' || c == '<' || c == '>' || c == '|' || c == ';' || c == '('
        || c == ')'
}

/// Escaping works character by character: the escape of two texts written
/// one after the other is the two escapes one after the other.
pub proof fn lemma_escape_concat(a: Seq<char>, b: Seq<char>)
    ensures
        escape_input_text(a + b) == escape_input_text(a) + escape_input_text(b),
    decreases b.len(),
{
    if b.len() == 0 {
        assert(a + b =~= a);
        assert(escape_input_text(a) + escape_input_text(b) =~= escape_input_text(a));
    } else {
        lemma_escape_concat(a, b.drop_last());
        assert((a + b).drop_last() =~= a + b.drop_last());
        assert((a + b).last() == b.last());
        assert(escape_input_text(a + b) =~= escape_input_text(a) + escape_input_text(b));
    }
}

/// How each character is written for `input text`: a space as `%s`, a
/// shell-special character behind a backslash, and any other character as
/// it is; so a text without spaces or special characters passes unchanged.
pub proof fn lemma_escape_chars(c: char, s: Seq<char>)
    ensures
        c == ' ' ==> escape_input_text(seq![c]) == seq!['%', 's'],
        shell_special(c) ==> escape_input_text(seq![c]) == seq!['\\', c],
        c != ' ' && !shell_special(c) ==> escape_input_text(seq![c]) == seq![c],
        (forall|i: int| 0 <= i < s.len() ==> #[trigger] s[i] != ' ' && !shell_special(s[i]))
            ==> escape_input_text(s) == s,
    decreases s.len(),
{
    assert(seq![c].drop_last() =~= Seq::<char>::empty());
    assert(seq![c].last() == c);
    assert(escape_input_text(seq![c].drop_last()) =~= Seq::<char>::empty());
    assert(escape_input_text(seq![c]) =~= escape_char(c));
    if s.len() > 0 {
        lemma_escape_chars(s.last(), s.drop_last());
        if forall|i: int| 0 <= i < s.len() ==> #[trigger] s[i] != ' ' && !shell_special(s[i]) {
            assert forall|i: int| 0 <= i < s.drop_last().len() implies #[trigger] s.drop_last()[i]
                != ' ' && !shell_special(s.drop_last()[i]) by {
                assert(s.drop_last()[i] == s[i]);
            }
            assert(s[s.len() - 1] != ' ' && !shell_special(s[s.len() - 1]));
            assert(escape_input_text(s) =~= s.drop_last() + seq![s.last()]);
            assert(s.drop_last() + seq![s.last()] =~= s);
        }
    } else {
        assert(escape_input_text(s) =~= s);
    }
}

/// `adb -s SERIAL shell input text ESCAPED`
pub fn input_text_args(serial: &str, text: &str) -> (res: Vec<String>)
    ensures
        arg_views(res@) == seq![
            "-s"@,
            serial@,
            "shell"@,
            "input"@,
            "text"@,
            escape_input_text(text@),
        ],
{
    let res = vec![
        owned("-s"),
        owned(serial),
        owned("shell"),
        owned("input"),
        owned("text"),
        escape_text(text),
    ];
    assert(arg_views(res@) =~= seq![
        "-s"@,
        serial@,
        "shell"@,
        "input"@,
        "text"@,
        escape_input_text(text@),
    ]);
    res
}

/// `adb -s SERIAL shell COMMAND`
pub fn shell_args(serial: &str, command: &str) -> (res: Vec<String>)
    ensures
        arg_views(res@) == seq!["-s"@, serial@, "shell"@, command@],
{
    let res = vec![owned("-s"), owned(serial), owned("shell"), owned(command)];
    assert(arg_views(res@) =~= seq!["-s"@, serial@, "shell"@, command@]);
    res
}

/// `adb -s SERIAL push LOCAL REMOTE`
pub fn push_args(serial: &str, local: &str, remote: &str) -> (res: Vec<String>)
    ensures
        arg_views(res@) == seq!["-s"@, serial@, "push"@, local@, remote@],
{
    let res = vec![owned("-s"), owned(serial), owned("push"), owned(local), owned(remote)];
    assert(arg_views(res@) =~= seq!["-s"@, serial@, "push"@, local@, remote@]);
    res
}

/// `adb -s SERIAL forward LOCAL REMOTE`
pub fn forward_args(serial: &str, local: &str, remote: &str) -> (res: Vec<String>)
    ensures
        arg_views(res@) == seq!["-s"@, serial@, "forward"@, local@, remote@],
{
    let res = vec![owned("-s"), owned(serial), owned("forward"), owned(local), owned(remote)];
    assert(arg_views(res@) =~= seq!["-s"@, serial@, "forward"@, local@, remote@]);
    res
}

/// `adb -s SERIAL forward --remove LOCAL`
pub fn remove_forward_args(serial: &str, local: &str) -> (res: Vec<String>)
    ensures
        arg_views(res@) == seq!["-s"@, serial@, "forward"@, "--remove"@, local@],
{
    let res = vec![owned("-s"), owned(serial), owned("forward"), owned("--remove"), owned(local)];
    assert(arg_views(res@) =~= seq!["-s"@, serial@, "forward"@, "--remove"@, local@]);
    res
}

/// `adb -s SERIAL reverse LOCAL REMOTE`: the device reaches this server through `LOCAL`.
pub fn reverse_args(serial: &str, local: &str, remote: &str) -> (res: Vec<String>)
    ensures
        arg_views(res@) == seq!["-s"@, serial@, "reverse"@, local@, remote@],
{
    let res = vec![owned("-s"), owned(serial), owned("reverse"), owned(local), owned(remote)];
    assert(arg_views(res@) =~= seq!["-s"@, serial@, "reverse"@, local@, remote@]);
    res
}

/// The port atx-agent listens on, on the device.
pub const ATX_AGENT_PORT: u16 = 9008;

/// `adb -s SERIAL forward tcp:PORT tcp:9008`: a local port to the device's atx-agent.
pub fn atx_forward_args(serial: &str, port: u16) -> (res: Vec<String>)
    ensures
        arg_views(res@) == seq![
            "-s"@,
            serial@,
            "forward"@,
            "tcp:"@ + decimal(port as nat),
            "tcp:"@ + decimal(ATX_AGENT_PORT as nat),
        ],
{
    let local = tcp_address(port);
    let remote = tcp_address(ATX_AGENT_PORT);
    forward_args(serial, local.as_str(), remote.as_str())
}

/// `python SCRIPT --current`: the status of every device.
pub fn current_script_args(script: &str) -> (res: Vec<String>)
    ensures
        arg_views(res@) == seq![script@, "--current"@],
{
    let res = vec![owned(script), owned("--current")];
    assert(arg_views(res@) =~= seq![script@, "--current"@]);
    res
}

/// `python SCRIPT ORDER`: switch every device to the SIM at this position.
pub fn switch_all_script_args(script: &str, sim_order: u32) -> (res: Vec<String>)
    ensures
        arg_views(res@) == seq![script@, decimal(sim_order as nat)],
{
    let res = vec![owned(script), decimal_string(sim_order as u64)];
    assert(arg_views(res@) =~= seq![script@, decimal(sim_order as nat)]);
    res
}

/// `python SCRIPT DEVICE --index ORDER`: switch one device to the SIM at this position.
pub fn switch_device_script_args(script: &str, device_id: &str, sim_order: u32) -> (res: Vec<
    String,
>)
    ensures
        arg_views(res@) == seq![script@, device_id@, "--index"@, decimal(sim_order as nat)],
{
    let res = vec![owned(script), owned(device_id), owned("--index"), decimal_string(sim_order as u64)];
    assert(arg_views(res@) =~= seq![script@, device_id@, "--index"@, decimal(sim_order as nat)]);
    res
}

} // verus!
