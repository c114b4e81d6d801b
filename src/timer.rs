//! The interval timer's arithmetic and programming, and the real-time
//! clock's BCD registers.
use vstd::prelude::*;

use crate::port::{pw, PortWrite};

verus! {

/// Input clock of the interval timer, in Hz.
pub const PIT_FREQUENCY: u64 = 1193180;

pub const PIT_PORT_CONTROL: u16 = 0x43;

pub const PIT_PORT_COUNTER0: u16 = 0x40;

pub const PIT_CONTROL_LATCH: u8 = 0x00;

/// Counter 0, low then high byte, mode 0 (one shot), binary.
pub const PIT_COUNTER0_ONCE: u8 = 0x30;

/// Counter 0, low then high byte, mode 2 (periodic), binary.
pub const PIT_COUNTER0_PERIODIC: u8 = 0x34;

/// Milliseconds of one busy-wait chunk.
pub const PIT_WAITCHUNK_MS: u64 = 30;

/// Timer counts in `time` milliseconds.
pub fn convert_from_ms(time: u64) -> (r: u64)
    requires
        time <= u64::MAX / PIT_FREQUENCY,
    ensures
        r == PIT_FREQUENCY * time / 1000,
{
    PIT_FREQUENCY * time / 1000
}

/// Timer counts in `time` microseconds.
pub fn convert_from_us(time: u64) -> (r: u64)
    requires
        time <= u64::MAX / PIT_FREQUENCY,
    ensures
        r == PIT_FREQUENCY * time / 1000000,
{
    PIT_FREQUENCY * time / 1000000
}

/// Programs counter 0 with `count`: the one-shot control byte, the periodic
/// one as well when `periodic`, then the count's low and high byte.
#[allow(non_snake_case)]
pub fn init_PIT(count: u16, periodic: bool) -> (r: Vec<PortWrite>)
    ensures
        !periodic ==> r@ == seq![
            pw(PIT_PORT_CONTROL, PIT_COUNTER0_ONCE),
            pw(PIT_PORT_COUNTER0, (count % 0x100) as u8),
            pw(PIT_PORT_COUNTER0, (count / 0x100) as u8),
        ],
        periodic ==> r@ == seq![
            pw(PIT_PORT_CONTROL, PIT_COUNTER0_ONCE),
            pw(PIT_PORT_CONTROL, PIT_COUNTER0_PERIODIC),
            pw(PIT_PORT_COUNTER0, (count % 0x100) as u8),
            pw(PIT_PORT_COUNTER0, (count / 0x100) as u8),
        ],
{
    let mut r: Vec<PortWrite> = Vec::new();
    r.push(PortWrite { port: PIT_PORT_CONTROL, value: PIT_COUNTER0_ONCE });
    if periodic {
        r.push(PortWrite { port: PIT_PORT_CONTROL, value: PIT_COUNTER0_PERIODIC });
    }
    assert((count & 0xFF) as u8 == (count % 0x100) as u8 && (count >> 8) as u8 == (count / 0x100) as u8) by (bit_vector);
    r.push(PortWrite { port: PIT_PORT_COUNTER0, value: (count & 0xFF) as u8 });
    r.push(PortWrite { port: PIT_PORT_COUNTER0, value: (count >> 8) as u8 });
    proof {
        if periodic {
            assert(r@ =~= seq![
                pw(PIT_PORT_CONTROL, PIT_COUNTER0_ONCE),
                pw(PIT_PORT_CONTROL, PIT_COUNTER0_PERIODIC),
                pw(PIT_PORT_COUNTER0, (count % 0x100) as u8),
                pw(PIT_PORT_COUNTER0, (count / 0x100) as u8),
            ]);
        } else {
            assert(r@ =~= seq![
                pw(PIT_PORT_CONTROL, PIT_COUNTER0_ONCE),
                pw(PIT_PORT_COUNTER0, (count % 0x100) as u8),
                pw(PIT_PORT_COUNTER0, (count / 0x100) as u8),
            ]);
        }
    }
    r
}

/// The latched value of counter 0 from the two bytes read after the latch
/// command, low byte first.
pub fn read_counter0(low_byte: u8, high_byte: u8) -> (r: u16)
    ensures
        r == low_byte + high_byte * 0x100,
{
    let low = low_byte as u16;
    let high = high_byte as u16;
    let r = low | (high << 8u16);
    assert(r == low + high * 0x100) by (bit_vector)
        requires
            low < 0x100 && high < 0x100,
            r == low | (high << 8u16),
    ;
    r
}

/// The busy wait that started at counter value `last` is over at `current`:
/// the counter has fallen by at least `count`, modulo 2^16.
pub fn pit_elapsed(last: u16, current: u16, count: u16) -> (r: bool)
    ensures
        r == ((last - current) % 0x10000 >= count),
{
    let diff = last.wrapping_sub(current);
    assert(diff == (last - current) % 0x10000);
    diff >= count
}

/// How `wait(ms)` splits a wait: `ms / 30` chunks of 30 ms, then the rest,
/// each as a count of the timer.
pub fn wait_plan(milisecond: u64) -> (r: (u64, u16, u16))
    ensures
        r.0 == milisecond / PIT_WAITCHUNK_MS,
        r.1 == PIT_FREQUENCY * PIT_WAITCHUNK_MS / 1000,
        r.2 == PIT_FREQUENCY * (milisecond % PIT_WAITCHUNK_MS) / 1000,
{
    let chunk = convert_from_ms(PIT_WAITCHUNK_MS);
    let rest = convert_from_ms(milisecond % PIT_WAITCHUNK_MS);
    assert(rest <= PIT_FREQUENCY * 29 / 1000) by (nonlinear_arith)
        requires
            rest == PIT_FREQUENCY * (milisecond % PIT_WAITCHUNK_MS) / 1000,
            milisecond % PIT_WAITCHUNK_MS < 30,
    ;
    (milisecond / PIT_WAITCHUNK_MS, chunk as u16, rest as u16)
}

/// A BCD byte as a binary number.
pub fn convert_bcd_to_bin(bcd: u8) -> (r: u8)
    ensures
        r == (bcd / 16) * 10 + bcd % 16,
{
    let high = bcd >> 4u8;
    let low = bcd & 0xFu8;
    assert(high == bcd / 16 && low == bcd % 16) by (bit_vector)
        requires
            high == bcd >> 4u8,
            low == bcd & 0xFu8,
    ;
    high * 10 + low
}

/// A calendar date from the RTC (year within the century).
#[derive(Clone, Copy, PartialEq, Eq, Structural)]
pub struct Date {
    pub year: u8,
    pub month: u8,
    pub day_of_month: u8,
    pub day_of_week: u8,
}

/// A time of day from the RTC.
#[derive(Clone, Copy, PartialEq, Eq, Structural)]
pub struct Time {
    pub hour: u8,
    pub minute: u8,
    pub second: u8,
}

/// Value of a BCD byte.
pub open spec fn bcd(b: u8) -> u8 {
    ((b / 16) * 10 + b % 16) as u8
}

/// Name of day `d` of the week, 1 being Sunday; "Error" outside 1 to 7.
pub open spec fn week_name(d: u8) -> Seq<char> {
    if d == 1 {
        "Sunday"@
    } else if d == 2 {
        "Monday"@
    } else if d == 3 {
        "Tuesday"@
    } else if d == 4 {
        "Wednesday"@
    } else if d == 5 {
        "Thursday"@
    } else if d == 6 {
        "Friday"@
    } else if d == 7 {
        "Saturday"@
    } else {
        "Error"@
    }
}

impl Date {
    /// The date from the RTC's year, month, day-of-month and day-of-week
    /// registers, each in BCD.
    pub fn current(year: u8, month: u8, day_of_month: u8, day_of_week: u8) -> (r: Self)
        ensures
            r == (Date {
                year: bcd(year),
                month: bcd(month),
                day_of_month: bcd(day_of_month),
                day_of_week: bcd(day_of_week),
            }),
    {
        Date {
            year: convert_bcd_to_bin(year),
            month: convert_bcd_to_bin(month),
            day_of_month: convert_bcd_to_bin(day_of_month),
            day_of_week: convert_bcd_to_bin(day_of_week),
        }
    }

    /// Name of the day of the week.
    pub fn week_string(&self) -> (r: &'static str)
        ensures
            r@ == week_name(self.day_of_week),
    {
        match self.day_of_week {
            1 => "Sunday",
            2 => "Monday",
            3 => "Tuesday",
            4 => "Wednesday",
            5 => "Thursday",
            6 => "Friday",
            7 => "Saturday",
            _ => "Error",
        }
    }
}

impl Time {
    /// The time from the RTC's hour, minute and second registers, in BCD.
    pub fn current(hour: u8, minute: u8, second: u8) -> (r: Self)
        ensures
            r == (Time { hour: bcd(hour), minute: bcd(minute), second: bcd(second) }),
    {
        Time {
            hour: convert_bcd_to_bin(hour),
            minute: convert_bcd_to_bin(minute),
            second: convert_bcd_to_bin(second),
        }
    }
}

} // verus!
