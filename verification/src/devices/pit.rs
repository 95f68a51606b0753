//! The programmable interval timer: system time, the waiting rule, and the
//! spinner shown in the top right corner of the screen.
use vstd::prelude::*;
use super::cga::{CGA, CGA_COLUMNS, CGA_STD_ATTR, cell, write_cell, cursor_value};

verus! {

/// Control port of the timer.
pub const PORT_CTRL: u16 = 0x43;

/// Data port of the timer's channel 0.
pub const PORT_DATA0: u16 = 0x40;

/// Milliseconds between two updates of the spinner.
pub const SPINNER_INTERVAL: usize = 250;

/// The system time: milliseconds since the timer was started.
pub struct SystemClock {
    ms: usize,
}

impl SystemClock {
    pub closed spec fn spec_ms(&self) -> usize {
        self.ms
    }

    /// A clock at time zero.
    pub fn new() -> (r: SystemClock)
        ensures
            r.spec_ms() == 0,
    {
        SystemClock { ms: 0 }
    }

    /// One millisecond passes (the time wraps around at `usize::MAX`). Returns
    /// whether the spinner is due to be updated and the processor yielded.
    pub fn tick(&mut self) -> (r: bool)
        ensures
            final(self).spec_ms() == next_ms(old(self).spec_ms()),
            r == (final(self).spec_ms() % SPINNER_INTERVAL == 0),
    {
        self.ms = self.ms.wrapping_add(1);
        self.ms % SPINNER_INTERVAL == 0
    }
}

/// Get the current system time in milliseconds.
pub fn get_system_time(clock: &SystemClock) -> (r: usize)
    ensures
        r == clock.spec_ms(),
{
    clock.ms
}

/// Whether a wait of `ms` milliseconds begun at `start_time` is over at `current_time`.
pub fn wait_elapsed(start_time: usize, current_time: usize, ms: usize) -> (r: bool)
    requires
        start_time <= current_time,
    ensures
        r == (current_time - start_time >= ms),
{
    current_time - start_time >= ms
}

/// The characters of the spinner animation, in order.
pub open spec fn spinner_char(i: int) -> char {
    if i == 0 {
        '|'
    } else if i == 1 {
        '/'
    } else if i == 2 {
        '-'
    } else {
        '\\'
    }
}

/// The spinner character that follows `current`, wrapping around after the last.
pub fn next_spinner_char(current: char) -> (r: char)
    requires
        exists|i: int| 0 <= i < 4 && #[trigger] spinner_char(i) == current,
    ensures
        forall|i: int| 0 <= i < 4 && #[trigger] spinner_char(i) == current ==> r == spinner_char((i + 1) % 4),
{
    if current == '|' {
        '/'
    } else if current == '/' {
        '-'
    } else if current == '-' {
        '\\'
    } else {
        '|'
    }
}

/// Advances the spinner from `current` and shows the new character in the top
/// right corner of the screen, keeping the cursor where it was. Returns the new
/// spinner character.
pub fn update_spinner(current: char, cga: &mut CGA) -> (r: char)
    requires
        exists|i: int| 0 <= i < 4 && #[trigger] spinner_char(i) == current,
        old(cga).wf(),
    ensures
        forall|i: int| 0 <= i < 4 && #[trigger] spinner_char(i) == current ==> r == spinner_char((i + 1) % 4),
        final(cga).wf(),
        final(cga).screen() == write_cell(old(cga).screen(), CGA_COLUMNS - 1, cell(r as u8, CGA_STD_ATTR)),
        final(cga).cursor() == cursor_value(
            (old(cga).cursor() % 80) as int,
            (old(cga).cursor() / 80) as int,
        ),
{
    let next = next_spinner_char(current);
    let pos = cga.getpos();
    cga.print_byte_at_nowrapping(next as u8, CGA_COLUMNS - 1, 0);
    cga.setpos(pos.0, pos.1);
    next
}

/// Frequency of the timer's input clock in Hz.
pub const TIMER_FREQ: usize = 1193182;

/// The bytes that set the timer to interrupt every millisecond: the command
/// for the control port (channel 0, low and high byte, square wave, binary),
/// then the low and the high byte of the clock ticks per millisecond for
/// data port 0.
pub fn timer_command_bytes() -> (r: (u8, u8, u8))
    ensures
        r == (0x36u8, 0xa9u8, 0x04u8),
        r.1 + 256 * r.2 == TIMER_FREQ / 1000,
{
    let command: u8 = 0x36;
    let ms_per_tick: usize = TIMER_FREQ / 1000;
    let low = (ms_per_tick % 256) as u8;
    let high = (ms_per_tick / 256) as u8;
    (command, low, high)
}

/// Represents the programmable interval timer by its two ports.
pub struct Timer {
    pub control_port: u16,
    pub data_port0: u16,
}

impl Timer {
    /// Create a new Timer instance.
    pub fn new() -> (r: Timer)
        ensures
            r.control_port == PORT_CTRL,
            r.data_port0 == PORT_DATA0,
    {
        Timer { control_port: PORT_CTRL, data_port0: PORT_DATA0 }
    }

    /// Set the timer interrupt interval in milliseconds. The timer keeps its
    /// interval of one millisecond, so nothing changes.
    pub fn set_interrupt_interval(&mut self, interval_ms: usize)
        ensures
            final(self).control_port == old(self).control_port,
            final(self).data_port0 == old(self).data_port0,
    {
    }
}

/// The time after one tick at `ms` milliseconds: it wraps around at `usize::MAX`.
pub open spec fn next_ms(ms: usize) -> usize {
    if ms == usize::MAX {
        0
    } else {
        (ms + 1) as usize
    }
}

/// The time after `n` ticks from `ms` milliseconds.
pub open spec fn after_ticks(ms: usize, n: nat) -> usize
    decreases n,
{
    if n == 0 {
        ms
    } else {
        next_ms(after_ticks(ms, (n - 1) as nat))
    }
}

/// Law: the system time never goes back over a run of ticks that does not
/// reach the wrap-around at `usize::MAX`: after `n` ticks it is `n`
/// milliseconds later, and a later reading is never smaller than an earlier.
pub proof fn law_time_never_decreases(ms: usize, n1: nat, n2: nat)
    requires
        n1 <= n2,
        ms + n2 <= usize::MAX,
    ensures
        after_ticks(ms, n2) == ms + n2,
        after_ticks(ms, n1) <= after_ticks(ms, n2),
    decreases n2,
{
    if n2 > 0 {
        if n1 == n2 {
            law_time_never_decreases(ms, (n1 - 1) as nat, (n2 - 1) as nat);
        } else {
            law_time_never_decreases(ms, n1, (n2 - 1) as nat);
        }
    }
}

} // verus!
