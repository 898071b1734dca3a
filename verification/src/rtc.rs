//! The real time clock.
use crate::calendar::{
    days_since_epoch, is_date, law_march_days, march_days, micros_of,
};
use vstd::prelude::*;

verus! {

/// The bit of the command port that keeps non-maskable interrupts off.
pub const CMOS_DISABLE_NMI: u8 = 0x80;

/// The register that holds the second.
pub const CMOS_SECOND_REGISTER: u8 = 0x00;

/// The register that holds the minute.
pub const CMOS_MINUTE_REGISTER: u8 = 0x02;

/// The register that holds the hour.
pub const CMOS_HOUR_REGISTER: u8 = 0x04;

/// The register that holds the day.
pub const CMOS_DAY_REGISTER: u8 = 0x07;

/// The register that holds the month.
pub const CMOS_MONTH_REGISTER: u8 = 0x08;

/// The register that holds the last two digits of the year.
pub const CMOS_YEAR_REGISTER: u8 = 0x09;

/// The register that tells whether the clock is being updated.
pub const CMOS_STATUS_REGISTER_A: u8 = 0x0a;

/// The register that tells in which format the clock is.
pub const CMOS_STATUS_REGISTER_B: u8 = 0x0b;

/// The bit of status register A that is set while the clock is being updated.
pub const CMOS_UPDATE_IN_PROGRESS_FLAG: u8 = 0x80;

/// The bit of status register B that is set if hours are counted from 0 to 23.
pub const CMOS_24_HOUR_FORMAT_FLAG: u8 = 0x02;

/// The bit of status register B that is set if the registers hold binary numbers.
pub const CMOS_BINARY_FORMAT_FLAG: u8 = 0x04;

/// The bit of the hour register that is set in the afternoon, if hours are counted from 1 to 12.
pub const CMOS_12_HOUR_PM_FLAG: u8 = 0x80;

/// The real time clock, with the format that its registers are in.
#[derive(Clone, Copy, Debug, PartialEq, Eq, Structural)]
pub struct Rtc {
    /// The value of status register B.
    pub cmos_format: u8,
}

/// The values of the date and time registers.
#[derive(Clone, Copy, Debug, PartialEq, Eq, Structural)]
pub struct CmosRegisters {
    /// The last two digits of the year.
    pub year: u8,
    /// The month.
    pub month: u8,
    /// The day.
    pub day: u8,
    /// The hour.
    pub hour: u8,
    /// The minute.
    pub minute: u8,
    /// The second.
    pub second: u8,
}

/// How far reading the clock has come, and thereby what to read next.
#[derive(Clone, Copy, Debug, PartialEq, Eq, Structural)]
pub enum RtcProgress {
    /// Status register A is to be read, until no update is in progress.
    AwaitIdle,
    /// The date and time registers are to be read.
    FirstRead,
    /// Status register A is to be read, in case an update has begun since.
    Recheck {
        /// The time that was read, in microseconds since the epoch.
        first: u64,
    },
    /// The date and time registers are to be read once more.
    SecondRead {
        /// The time that was read at first, in microseconds since the epoch.
        first: u64,
    },
    /// The time has been read consistently.
    Done {
        /// The time in microseconds since the epoch.
        micros: u64,
    },
}

/// What was read from the clock.
#[derive(Clone, Copy, Debug, PartialEq, Eq, Structural)]
pub enum RtcEvent {
    /// The value of status register A.
    Status(u8),
    /// The values of the date and time registers.
    Registers(CmosRegisters),
}

/// The number that two decimal digits stand for, one to each half of a byte.
pub open spec fn bcd_value(value: int) -> int {
    value / 16 * 10 + value % 16
}

/// The byte that holds a number of two decimal digits, one to each half.
pub open spec fn bcd_byte(number: int) -> int {
    number / 10 * 16 + number % 10
}

/// Whether a value of status register A says that the clock is being updated.
pub open spec fn is_updating(status: u8) -> bool {
    status >= 0x80
}

impl Rtc {
    /// Whether hours are counted from 0 to 23.
    pub open spec fn counts_24_hours(self) -> bool {
        self.cmos_format as int / 2 % 2 == 1
    }

    /// Whether the registers hold binary numbers.
    pub open spec fn is_binary(self) -> bool {
        self.cmos_format as int / 4 % 2 == 1
    }

    /// The number that a register holds.
    pub open spec fn register_number(self, value: int) -> int {
        if self.is_binary() {
            value
        } else {
            bcd_value(value)
        }
    }

    /// The hour of the day that the hour register holds.
    pub open spec fn register_hour(self, value: int) -> int {
        if self.counts_24_hours() {
            self.register_number(value)
        } else {
            let hour = self.register_number(value % 0x80);
            (if hour == 12 {
                0
            } else {
                hour
            }) + (if value >= 0x80 {
                12int
            } else {
                0
            })
        }
    }

    /// The time that the registers hold, in microseconds since the epoch.
    pub open spec fn register_micros(self, registers: CmosRegisters) -> int {
        micros_of(
            march_days(
                self.register_number(registers.year as int) + 2000,
                self.register_number(registers.month as int),
                self.register_number(registers.day as int),
            ),
            self.register_hour(registers.hour as int),
            self.register_number(registers.minute as int),
            self.register_number(registers.second as int),
        )
    }

    /// Whether `event` is what is to be read after `progress`.
    pub open spec fn awaits(progress: RtcProgress, event: RtcEvent) -> bool {
        match progress {
            RtcProgress::AwaitIdle | RtcProgress::Recheck { .. } => event is Status,
            RtcProgress::FirstRead | RtcProgress::SecondRead { .. } => event is Registers,
            RtcProgress::Done { .. } => false,
        }
    }

    /// What comes after `progress` once `event` has been read.
    pub open spec fn advance(self, progress: RtcProgress, event: RtcEvent) -> RtcProgress {
        match (progress, event) {
            (RtcProgress::AwaitIdle, RtcEvent::Status(status)) => if is_updating(status) {
                RtcProgress::AwaitIdle
            } else {
                RtcProgress::FirstRead
            },
            (RtcProgress::FirstRead, RtcEvent::Registers(registers)) => RtcProgress::Recheck {
                first: self.register_micros(registers) as u64,
            },
            (RtcProgress::Recheck { first }, RtcEvent::Status(status)) => if is_updating(status) {
                RtcProgress::AwaitIdle
            } else {
                RtcProgress::SecondRead { first }
            },
            (RtcProgress::SecondRead { first }, RtcEvent::Registers(registers)) => if first
                == self.register_micros(registers) {
                RtcProgress::Done { micros: first }
            } else {
                RtcProgress::AwaitIdle
            },
            _ => progress,
        }
    }

    /// How far reading the clock has come after `events`, if each was what was to be read.
    pub open spec fn progress_after(self, events: Seq<RtcEvent>) -> Option<RtcProgress>
        decreases events.len(),
    {
        if events.len() == 0 {
            Some(RtcProgress::AwaitIdle)
        } else {
            match self.progress_after(events.drop_last()) {
                Some(progress) => if Self::awaits(progress, events.last()) {
                    Some(self.advance(progress, events.last()))
                } else {
                    None
                },
                None => None,
            }
        }
    }

    /// The clock with this value of status register B.
    pub fn new(cmos_format: u8) -> (rtc: Rtc)
        ensures
            rtc.cmos_format == cmos_format,
    {
        Rtc { cmos_format }
    }

    /// Whether hours are counted from 0 to 23.
    pub fn is_24_hour_format(&self) -> (result: bool)
        ensures
            result <==> self.counts_24_hours(),
    {
        proof {
            let format = self.cmos_format;
            assert(format & 0x02 > 0 <==> format / 2 % 2 == 1) by (bit_vector);
        }
        self.cmos_format & CMOS_24_HOUR_FORMAT_FLAG > 0
    }

    /// Whether the registers hold binary numbers.
    pub fn is_binary_format(&self) -> (result: bool)
        ensures
            result <==> self.is_binary(),
    {
        proof {
            let format = self.cmos_format;
            assert(format & 0x04 > 0 <==> format / 4 % 2 == 1) by (bit_vector);
        }
        self.cmos_format & CMOS_BINARY_FORMAT_FLAG > 0
    }

    /// Whether the hour register says that it is afternoon.
    pub fn time_is_pm(hour: u8) -> (result: bool)
        ensures
            result <==> hour >= 0x80,
    {
        assert(hour & 0x80 > 0 <==> hour >= 0x80) by (bit_vector);
        hour & CMOS_12_HOUR_PM_FLAG > 0
    }

    /// Returns the binary value for a given value in BCD (Binary-Coded Decimal).
    pub fn convert_bcd_value(value: u8) -> (number: u8)
        ensures
            number == bcd_value(value as int),
    {
        assert(value & 0xf == value % 16) by (bit_vector);
        ((value / 16) * 10) + (value & 0xf)
    }

    /// Returns the number of microseconds since the epoch from a given date.
    pub fn microseconds_from_date(
        year: u16,
        month: u8,
        day: u8,
        hour: u8,
        minute: u8,
        second: u8,
    ) -> (micros: u64)
        requires
            0 <= march_days(year as int, month as int, day as int),
        ensures
            micros == micros_of(
                march_days(year as int, month as int, day as int),
                hour as int,
                minute as int,
                second as int,
            ),
            1970 <= year && is_date(year as int, month as int, day as int) ==> micros == micros_of(
                days_since_epoch(year as int, month as int, day as int),
                hour as int,
                minute as int,
                second as int,
            ),
    {
        proof {
            if 1970 <= year && is_date(year as int, month as int, day as int) {
                law_march_days(year as int, month as int, day as int);
            }
        }
        let (m, y): (u64, u64) = if month > 2 {
            ((month - 2) as u64, year as u64)
        } else {
            ((month + 12 - 2) as u64, (year - 1) as u64)
        };
        let days_since_epoch: u64 = (y / 4 - y / 100 + y / 400 + 367 * m / 12 + day as u64) + y
            * 365 - 719_499;
        let hours_since_epoch: u64 = days_since_epoch * 24 + hour as u64;
        let minutes_since_epoch: u64 = hours_since_epoch * 60 + minute as u64;
        let seconds_since_epoch: u64 = minutes_since_epoch * 60 + second as u64;
        seconds_since_epoch * 1_000_000
    }

    /// The number that a date or time register holds.
    ///
    /// Every date/time register may either be in binary or in BCD format.
    pub fn read_datetime_register(&self, value: u8) -> (number: u8)
        ensures
            number == self.register_number(value as int),
    {
        if self.is_binary_format() {
            value
        } else {
            Self::convert_bcd_value(value)
        }
    }

    /// The hour of the day that the hour register holds.
    ///
    /// On top of being in either binary or BCD format, it may also be in 12-hour or 24-hour
    /// format.
    fn read_hour_register(&self, value: u8) -> (hour: u8)
        ensures
            hour == self.register_hour(value as int),
    {
        let mut hour: u8 = value;
        let mut is_pm = false;
        // Check and mask off a potential PM flag if the hour is given in 12-hour format.
        if !self.is_24_hour_format() {
            is_pm = Self::time_is_pm(hour);
            assert(value & !0x80u8 == value % 0x80 && value % 0x80 < 0x80) by (bit_vector);
            hour = hour & !CMOS_12_HOUR_PM_FLAG;
        }
        // Now convert a BCD number to binary if necessary (after potentially masking off the PM
        // flag above).
        if !self.is_binary_format() {
            hour = Self::convert_bcd_value(hour);
        }
        // If the hour is given in 12-hour format, do the necessary calculations to convert it
        // into 24 hours.
        if !self.is_24_hour_format() {
            if hour == 12 {
                // 12:00 AM is 00:00 and 12:00 PM is 12:00 (see is_pm below) in 24-hour format.
                hour = 0;
            }
            if is_pm {
                // {01:00 PM, 02:00 PM, ...} is {13:00, 14:00, ...} in 24-hour format.
                hour = hour + 12;
            }
        }
        hour
    }

    /// The time that the registers hold, in microseconds since the epoch.
    pub fn read_all_values(&self, registers: &CmosRegisters) -> (micros: u64)
        ensures
            micros == self.register_micros(*registers),
    {
        let year: u16 = self.read_datetime_register(registers.year) as u16 + 2000;
        let month: u8 = self.read_datetime_register(registers.month);
        let day: u8 = self.read_datetime_register(registers.day);
        let hour: u8 = self.read_hour_register(registers.hour);
        let minute: u8 = self.read_datetime_register(registers.minute);
        let second: u8 = self.read_datetime_register(registers.second);
        Self::microseconds_from_date(year, month, day, hour, minute, second)
    }

    /// Whether a value of status register A says that the clock is being updated.
    pub fn update_in_progress(status: u8) -> (result: bool)
        ensures
            result <==> is_updating(status),
    {
        assert(status & 0x80 > 0 <==> status >= 0x80) by (bit_vector);
        status & CMOS_UPDATE_IN_PROGRESS_FLAG > 0
    }

    /// Takes one step towards the time in microseconds since the epoch, with what was read
    /// last, starting from [`RtcProgress::AwaitIdle`].
    ///
    /// While a clock update is in progress, it waits until it is finished. Then the time is
    /// read. If the clock is already updating the time again, the read values may be
    /// inconsistent, and the process is repeated. Otherwise the time is read again. If it is
    /// the same as before, consistent values have been read.
    pub fn get_microseconds_since_epoch(&self, progress: RtcProgress, event: RtcEvent) -> (next:
        RtcProgress)
        requires
            Self::awaits(progress, event),
        ensures
            next == self.advance(progress, event),
    {
        match (progress, event) {
            (RtcProgress::AwaitIdle, RtcEvent::Status(status)) => {
                if Self::update_in_progress(status) {
                    RtcProgress::AwaitIdle
                } else {
                    RtcProgress::FirstRead
                }
            },
            (RtcProgress::FirstRead, RtcEvent::Registers(registers)) => {
                RtcProgress::Recheck { first: self.read_all_values(&registers) }
            },
            (RtcProgress::Recheck { first }, RtcEvent::Status(status)) => {
                if Self::update_in_progress(status) {
                    RtcProgress::AwaitIdle
                } else {
                    RtcProgress::SecondRead { first }
                }
            },
            (RtcProgress::SecondRead { first }, RtcEvent::Registers(registers)) => {
                let second: u64 = self.read_all_values(&registers);
                if first == second {
                    RtcProgress::Done { micros: first }
                } else {
                    RtcProgress::AwaitIdle
                }
            },
            _ => progress,
        }
    }
}

impl Rtc {
    /// The value of a register that holds a number of two decimal digits.
    pub open spec fn number_register(self, number: int) -> int {
        if self.is_binary() {
            number
        } else {
            bcd_byte(number)
        }
    }

    /// The value of the hour register at an hour of the day.
    pub open spec fn hour_register(self, hour: int) -> int {
        if self.counts_24_hours() {
            self.number_register(hour)
        } else {
            self.number_register(
                if hour % 12 == 0 {
                    12
                } else {
                    hour % 12
                },
            ) + (if hour >= 12 {
                0x80int
            } else {
                0
            })
        }
    }
}

/// Numbers of two decimal digits survive being stored as binary-coded decimals.
pub proof fn law_bcd_round_trip(number: int)
    requires
        0 <= number < 100,
    ensures
        bcd_value(bcd_byte(number)) == number,
        0 <= bcd_byte(number) <= 0x99,
{
}

/// Whatever the format of the clock, the hour register tells the hour that it was set to: among
/// others, 12 AM is midnight, 12 PM is noon, and 1 PM is 13 o'clock.
pub proof fn law_hour_round_trip(rtc: Rtc, hour: int)
    requires
        0 <= hour < 24,
    ensures
        rtc.register_hour(rtc.hour_register(hour)) == hour,
        0 <= rtc.hour_register(hour) <= u8::MAX,
{
}

/// Whatever the format of the clock, registers that are set to a date of this century and a
/// time of day yield the microseconds from the start of 1970 to then.
pub proof fn law_registers_round_trip(
    rtc: Rtc,
    year: int,
    month: int,
    day: int,
    hour: int,
    minute: int,
    second: int,
)
    requires
        2000 <= year < 2100,
        is_date(year, month, day),
        0 <= hour < 24,
        0 <= minute < 60,
        0 <= second < 60,
    ensures
        rtc.register_micros(
            CmosRegisters {
                year: rtc.number_register(year - 2000) as u8,
                month: rtc.number_register(month) as u8,
                day: rtc.number_register(day) as u8,
                hour: rtc.hour_register(hour) as u8,
                minute: rtc.number_register(minute) as u8,
                second: rtc.number_register(second) as u8,
            },
        ) == micros_of(days_since_epoch(year, month, day), hour, minute, second),
{
    law_bcd_round_trip(year - 2000);
    law_bcd_round_trip(month);
    law_bcd_round_trip(day);
    law_hour_round_trip(rtc, hour);
    law_bcd_round_trip(minute);
    law_bcd_round_trip(second);
    law_march_days(year, month, day);
}

/// The time in the registers is a number of 64 bits.
proof fn lemma_register_micros(rtc: Rtc, registers: CmosRegisters)
    ensures
        0 <= rtc.register_micros(registers) <= u64::MAX,
{
}

/// Where reading the clock ends, the time was read twice in a row with the same outcome, and
/// before either time the clock was found not to be updated.
pub proof fn law_consistent_read(rtc: Rtc, events: Seq<RtcEvent>, micros: u64)
    requires
        rtc.progress_after(events) == Some(RtcProgress::Done { micros }),
    ensures
        events.len() >= 4,
        events[events.len() - 4] matches RtcEvent::Status(status) && !is_updating(status),
        events[events.len() - 3] matches RtcEvent::Registers(registers) && rtc.register_micros(
            registers,
        ) == micros,
        events[events.len() - 2] matches RtcEvent::Status(status) && !is_updating(status),
        events[events.len() - 1] matches RtcEvent::Registers(registers) && rtc.register_micros(
            registers,
        ) == micros,
{
    reveal_with_fuel(Rtc::progress_after, 6);
    let before_last = events.drop_last();
    let recheck = before_last.drop_last();
    let first_read = recheck.drop_last();
    assert(events.last() is Registers);
    assert(before_last.last() == events[events.len() - 2]);
    assert(recheck.last() == events[events.len() - 3]);
    assert(first_read.last() == events[events.len() - 4]);
    if let RtcEvent::Registers(registers) = recheck.last() {
        lemma_register_micros(rtc, registers);
    }
}

/// The two halves of a byte are the two digits of the number that it stands for, also where they
/// are no decimal digits.
pub proof fn law_bcd_digits(tens: int, ones: int)
    requires
        0 <= tens < 16,
        0 <= ones < 16,
    ensures
        bcd_value(16 * tens + ones) == 10 * tens + ones,
        tens < 10 && ones < 10 ==> bcd_byte(10 * tens + ones) == 16 * tens + ones,
{
}

/// Status register B tells the format: bit 1 stands for counting 24 hours, and bit 2 for binary
/// numbers. Bit 7 of status register A stands for an update.
pub proof fn law_format_bits(rtc: Rtc, status: u8)
    ensures
        rtc.counts_24_hours() <==> rtc.cmos_format & (1u8 << 1) != 0,
        rtc.is_binary() <==> rtc.cmos_format & (1u8 << 2) != 0,
        is_updating(status) <==> status & (1u8 << 7) != 0,
{
    let format = rtc.cmos_format;
    assert(format & (1u8 << 1) != 0 <==> format / 2 % 2 == 1) by (bit_vector);
    assert(format & (1u8 << 2) != 0 <==> format / 4 % 2 == 1) by (bit_vector);
    assert(status & (1u8 << 7) != 0 <==> status >= 0x80) by (bit_vector);
}

/// A register holds its number as it is in binary format, and in two digits otherwise.
pub proof fn law_register_formats(rtc: Rtc, value: u8)
    ensures
        rtc.cmos_format & (1u8 << 2) != 0 ==> rtc.register_number(value as int) == value,
        rtc.cmos_format & (1u8 << 2) == 0 ==> rtc.register_number(value as int) == 10 * (value
            as int / 16) + value as int % 16,
{
    law_format_bits(rtc, 0);
}

/// The hour is that of the register where 24 hours are counted. Where 12 are, it is 12 hours later
/// in the afternoon than at the same value in the morning, the value 12 is 0 o'clock, and any other
/// is itself.
pub proof fn law_hour_formats(rtc: Rtc, value: int)
    requires
        0 <= value < 0x80,
    ensures
        rtc.cmos_format & (1u8 << 1) != 0 ==> rtc.register_hour(value) == rtc.register_number(value)
            && rtc.register_hour(value + 0x80) == rtc.register_number(value + 0x80),
        rtc.cmos_format & (1u8 << 1) == 0 ==> {
            &&& rtc.register_hour(value + 0x80) == rtc.register_hour(value) + 12
            &&& rtc.register_number(value) == 12 ==> rtc.register_hour(value) == 0
            &&& rtc.register_number(value) != 12 ==> rtc.register_hour(value)
                == rtc.register_number(value)
        },
{
    law_format_bits(rtc, 0);
}

/// The time in the registers is that of the date and the time of day that they hold, in this
/// century, whatever they hold.
pub proof fn law_register_time(rtc: Rtc, registers: CmosRegisters)
    ensures
        rtc.register_micros(registers) == march_days(
            2000 + rtc.register_number(registers.year as int),
            rtc.register_number(registers.month as int),
            rtc.register_number(registers.day as int),
        ) * 86_400_000_000 + rtc.register_hour(registers.hour as int) * 3_600_000_000
            + rtc.register_number(registers.minute as int) * 60_000_000 + rtc.register_number(
            registers.second as int,
        ) * 1_000_000,
{
}

/// Reading ends as soon as it should: where the clock is idle, the registers are read, the clock
/// is still idle, and the registers are read again with the same outcome, that is the time.
pub proof fn law_consistent_read_ends(
    rtc: Rtc,
    status: u8,
    first: CmosRegisters,
    recheck: u8,
    second: CmosRegisters,
)
    requires
        status & (1u8 << 7) == 0,
        recheck & (1u8 << 7) == 0,
        rtc.register_micros(first) == rtc.register_micros(second),
    ensures
        rtc.progress_after(
            seq![
                RtcEvent::Status(status),
                RtcEvent::Registers(first),
                RtcEvent::Status(recheck),
                RtcEvent::Registers(second),
            ],
        ) matches Some(RtcProgress::Done { micros }) && micros == rtc.register_micros(first),
{
    let none = Seq::<RtcEvent>::empty();
    law_consistent_read_ends_anywhere(rtc, none, status, first, recheck, second);
    assert(none.push(RtcEvent::Status(status)).push(RtcEvent::Registers(first)).push(
        RtcEvent::Status(recheck),
    ).push(RtcEvent::Registers(second)) =~= seq![
        RtcEvent::Status(status),
        RtcEvent::Registers(first),
        RtcEvent::Status(recheck),
        RtcEvent::Registers(second),
    ]);
}

/// At each stage, what is to be read is a status or the registers, whatever their values. An
/// update starts the reading over, an idle clock takes it on, and so does the first time; the
/// second time ends it or starts it over, according to whether it is the same.
pub proof fn law_reading_goes_on(
    rtc: Rtc,
    status: u8,
    registers: CmosRegisters,
    recheck: u8,
    again: CmosRegisters,
    first: u64,
)
    ensures
        Rtc::awaits(RtcProgress::AwaitIdle, RtcEvent::Status(status)),
        Rtc::awaits(RtcProgress::FirstRead, RtcEvent::Registers(registers)),
        Rtc::awaits(RtcProgress::Recheck { first }, RtcEvent::Status(recheck)),
        Rtc::awaits(RtcProgress::SecondRead { first }, RtcEvent::Registers(again)),
        rtc.advance(RtcProgress::AwaitIdle, RtcEvent::Status(status)) == (if status & (1u8 << 7)
            == 0 {
            RtcProgress::FirstRead
        } else {
            RtcProgress::AwaitIdle
        }),
        rtc.advance(RtcProgress::FirstRead, RtcEvent::Registers(registers)) matches
            RtcProgress::Recheck { first } && first == rtc.register_micros(registers),
        rtc.advance(RtcProgress::Recheck { first }, RtcEvent::Status(recheck)) == (if recheck & (1u8
            << 7) == 0 {
            RtcProgress::SecondRead { first }
        } else {
            RtcProgress::AwaitIdle
        }),
        rtc.register_micros(again) == first ==> rtc.advance(
            RtcProgress::SecondRead { first },
            RtcEvent::Registers(again),
        ) == (RtcProgress::Done { micros: first }),
        rtc.register_micros(again) != first ==> rtc.advance(
            RtcProgress::SecondRead { first },
            RtcEvent::Registers(again),
        ) == RtcProgress::AwaitIdle,
{
    law_format_bits(rtc, status);
    law_format_bits(rtc, recheck);
    lemma_register_micros(rtc, registers);
}

/// Reading advances with each event that was to be read.
proof fn lemma_progress_next(rtc: Rtc, events: Seq<RtcEvent>, progress: RtcProgress, event: RtcEvent)
    requires
        rtc.progress_after(events) == Some(progress),
        Rtc::awaits(progress, event),
    ensures
        rtc.progress_after(events.push(event)) == Some(rtc.advance(progress, event)),
{
    assert(events.push(event).drop_last() =~= events);
}

/// However often reading was started over, it ends with the next consistent read.
pub proof fn law_consistent_read_ends_anywhere(
    rtc: Rtc,
    events: Seq<RtcEvent>,
    status: u8,
    first: CmosRegisters,
    recheck: u8,
    second: CmosRegisters,
)
    requires
        rtc.progress_after(events) == Some(RtcProgress::AwaitIdle),
        status & (1u8 << 7) == 0,
        recheck & (1u8 << 7) == 0,
        rtc.register_micros(first) == rtc.register_micros(second),
    ensures
        rtc.progress_after(
            events.push(RtcEvent::Status(status)).push(RtcEvent::Registers(first)).push(
                RtcEvent::Status(recheck),
            ).push(RtcEvent::Registers(second)),
        ) matches Some(RtcProgress::Done { micros }) && micros == rtc.register_micros(first),
{
    let micros = rtc.register_micros(first) as u64;
    law_reading_goes_on(rtc, status, first, recheck, second, micros);
    lemma_register_micros(rtc, first);
    let one = events.push(RtcEvent::Status(status));
    let two = one.push(RtcEvent::Registers(first));
    let three = two.push(RtcEvent::Status(recheck));
    lemma_progress_next(rtc, events, RtcProgress::AwaitIdle, RtcEvent::Status(status));
    lemma_progress_next(rtc, one, RtcProgress::FirstRead, RtcEvent::Registers(first));
    lemma_progress_next(
        rtc,
        two,
        RtcProgress::Recheck { first: micros },
        RtcEvent::Status(recheck),
    );
    lemma_progress_next(
        rtc,
        three,
        RtcProgress::SecondRead { first: micros },
        RtcEvent::Registers(second),
    );
}

/// The registers of the time of day are two apart, with those of the alarm between; the day, the
/// month and the year follow each other, and so do the status registers after them.
pub proof fn law_register_numbers()
    ensures
        CMOS_SECOND_REGISTER == 0,
        CMOS_MINUTE_REGISTER == CMOS_SECOND_REGISTER + 2,
        CMOS_HOUR_REGISTER == CMOS_MINUTE_REGISTER + 2,
        CMOS_DAY_REGISTER == CMOS_HOUR_REGISTER + 3,
        CMOS_MONTH_REGISTER == CMOS_DAY_REGISTER + 1,
        CMOS_YEAR_REGISTER == CMOS_MONTH_REGISTER + 1,
        CMOS_STATUS_REGISTER_A == CMOS_YEAR_REGISTER + 1,
        CMOS_STATUS_REGISTER_B == CMOS_STATUS_REGISTER_A + 1,
        CMOS_DISABLE_NMI == 128,
{
}

} // verus!
