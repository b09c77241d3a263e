//! Local port counters for `adb forward`: each new forward takes the next
//! port, and the counter starts over once it has passed the end of its window.
use vstd::prelude::*;
use crate::commands::{arg_views, atx_forward_args, ATX_AGENT_PORT};
use crate::serial_map::SerialMap;
use crate::text::decimal;

verus! {

/// First local port for atx-agent forwards.
pub const ATX_PORT_FIRST: u16 = 17100;

/// Once a port above this has been handed out, the atx-agent counter starts over.
pub const ATX_PORT_LAST: u16 = 18000;

/// First local port for scrcpy forwards.
pub const SCRCPY_PORT_FIRST: u16 = 27183;

/// Once a port above this has been handed out, the scrcpy counter starts over.
pub const SCRCPY_PORT_LAST: u16 = 30000;

/// One step of a port counter: the current value is handed out; the counter
/// moves on by one (wrapping at 16 bits) or, if the value handed out was
/// past `last`, goes back to `first`.
pub open spec fn counter_after(value: u16, first: u16, last: u16) -> u16 {
    if value > last {
        first
    } else {
        ((value + 1) % 0x1_0000) as u16
    }
}

fn advance(counter: &mut u16, first: u16, last: u16) -> (port: u16)
    ensures
        port == *old(counter),
        *final(counter) == counter_after(*old(counter), first, last),
{
    let port = *counter;
    *counter = port.wrapping_add(1);
    if port > last {
        *counter = first;
    }
    port
}

/// Hands out the next local port for an atx-agent forward.
pub fn next_atx_port(counter: &mut u16) -> (port: u16)
    ensures
        port == *old(counter),
        *final(counter) == counter_after(*old(counter), ATX_PORT_FIRST, ATX_PORT_LAST),
{
    advance(counter, ATX_PORT_FIRST, ATX_PORT_LAST)
}

/// Hands out the next local port for a scrcpy forward.
pub fn next_port(counter: &mut u16) -> (port: u16)
    ensures
        port == *old(counter),
        *final(counter) == counter_after(*old(counter), SCRCPY_PORT_FIRST, SCRCPY_PORT_LAST),
{
    advance(counter, SCRCPY_PORT_FIRST, SCRCPY_PORT_LAST)
}

/// A counter that starts in its window stays there: every port it hands
/// out lies between `first` and `last + 1`, and so does the counter after.
pub proof fn lemma_counter_stays_in_window(value: u16, first: u16, last: u16)
    requires
        first <= value <= last + 1,
        last < u16::MAX,
    ensures
        first <= counter_after(value, first, last) <= last + 1,
{
}

/// Below the end of the window, successive ports are consecutive.
pub proof fn lemma_counter_consecutive(value: u16, first: u16, last: u16)
    requires
        value <= last,
        last < u16::MAX,
    ensures
        counter_after(value, first, last) == value + 1,
{
}


/// The counter after `n` calls, starting from `value`; call number `n`
/// (counting from zero) hands out this value.
pub open spec fn counter_after_calls(value: u16, first: u16, last: u16, n: nat) -> u16
    decreases n,
{
    if n == 0 {
        value
    } else {
        counter_after(counter_after_calls(value, first, last, (n - 1) as nat), first, last)
    }
}

/// Within one turn of the window, the counter climbs from `value` to
/// `last + 1` and then goes on from `first`.
proof fn lemma_counter_after_calls(value: u16, first: u16, last: u16, n: nat)
    requires
        first <= value <= last + 1,
        last < u16::MAX,
        n < last + 2 - first,
    ensures
        counter_after_calls(value, first, last, n) == if value + n <= last + 1 {
            value + n
        } else {
            first + value + n - last - 2
        },
    decreases n,
{
    if n > 0 {
        lemma_counter_after_calls(value, first, last, (n - 1) as nat);
    }
}

/// Every session gets a port of its own: from a counter inside its window,
/// no two of the next `last + 2 - first` calls hand out the same port.
pub proof fn lemma_ports_distinct(value: u16, first: u16, last: u16, i: nat, j: nat)
    requires
        first <= value <= last + 1,
        last < u16::MAX,
        i < j < last + 2 - first,
    ensures
        counter_after_calls(value, first, last, i) != counter_after_calls(value, first, last, j),
{
    lemma_counter_after_calls(value, first, last, i);
    lemma_counter_after_calls(value, first, last, j);
}

/// How to reach a device's atx-agent.
pub enum AtxPortPlan {
    /// A local port is already forwarded to it.
    Known(u16),
    /// Forward this new local port with these `adb` arguments, then record it.
    Forward(u16, Vec<String>),
}

/// The local port for a device's atx-agent: the one already forwarded, or
/// the next port from the counter together with the `adb forward` to run.
pub fn plan_atx_port(ports: &SerialMap<u16>, serial: &str, counter: &mut u16) -> (res: AtxPortPlan)
    ensures
        ports@.contains_key(serial@) ==> (res matches AtxPortPlan::Known(p) && p == ports@[serial@]
            && *final(counter) == *old(counter)),
        !ports@.contains_key(serial@) ==> (res matches AtxPortPlan::Forward(p, args) && p
            == *old(counter) && *final(counter) == counter_after(
            *old(counter),
            ATX_PORT_FIRST,
            ATX_PORT_LAST,
        ) && arg_views(args@) == seq![
            "-s"@,
            serial@,
            "forward"@,
            "tcp:"@ + decimal(p as nat),
            "tcp:"@ + decimal(ATX_AGENT_PORT as nat),
        ]),
{
    match ports.get(serial) {
        Some(p) => AtxPortPlan::Known(*p),
        None => {
            let port = next_atx_port(counter);
            AtxPortPlan::Forward(port, atx_forward_args(serial, port))
        },
    }
}

} // verus!
