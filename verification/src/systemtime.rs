//! The time since the UNIX epoch.
use crate::calendar::{days_since_epoch, lemma_days_before_year};
use time::OffsetDateTime;
use vstd::prelude::*;

verus! {

/// The first second after the year 9999, counted from the UNIX epoch.
pub const END_OF_TIME: i128 = 253_402_300_800;

/// When the kernel was booted, in microseconds since the UNIX epoch, once that is known.
#[derive(Clone, Copy, Debug, PartialEq, Eq, Structural)]
pub struct BootTime {
    /// The microseconds since the UNIX epoch.
    pub micros: Option<u64>,
}

/// What has been found out about the time of boot.
#[derive(Clone, Copy, Debug, PartialEq, Eq, Structural)]
pub enum BootTimeEvent {
    /// The time of boot that the hypervisor hands to the kernel, in nanoseconds since the UNIX
    /// epoch, if it does.
    Uhyve(Option<i128>),
    /// The time of boot according to kvmclock, in microseconds since the UNIX epoch, if it is
    /// available.
    Kvmclock(Option<u64>),
    /// The time according to the real time clock.
    Rtc {
        /// The current time in microseconds since the UNIX epoch.
        current_time: u64,
        /// The microseconds since boot.
        timer_ticks: u64,
    },
}

/// What is to be done to find out the time of boot.
#[derive(Clone, Copy, Debug, PartialEq, Eq, Structural)]
pub enum BootTimeStep {
    /// Kvmclock is to be started.
    StartKvmclock,
    /// The real time clock is to be read.
    ReadRtc,
    /// The time of boot has been found.
    Done {
        /// The nanoseconds since the UNIX epoch.
        nanos: i128,
    },
}

/// Whether a time, given in nanoseconds since the UNIX epoch, is before the year 10000.
pub open spec fn is_representable(nanos: int) -> bool {
    nanos < END_OF_TIME * 1_000_000_000
}

/// Makes a point in time with [`OffsetDateTime::from_unix_timestamp_nanos`] of `time`, and gives
/// it as nanoseconds since the UNIX epoch with [`OffsetDateTime::unix_timestamp_nanos`].
///
/// What is taken on trust: from the UNIX epoch on, it succeeds exactly on times before the year
/// 10000, and the time that it makes is that of the argument.
#[verifier::external_body]
fn offset_date_time(nanos: i128) -> (time: Option<i128>)
    requires
        0 <= nanos,
    ensures
        time == (if is_representable(nanos as int) {
            Some(nanos)
        } else {
            None
        }),
{
    let time = OffsetDateTime::from_unix_timestamp_nanos(nanos).ok()?;
    Some(time.unix_timestamp_nanos())
}

impl BootTimeEvent {
    /// What is to be done next to find out the time of boot.
    pub open spec fn step(self) -> BootTimeStep {
        match self {
            BootTimeEvent::Uhyve(Some(nanos)) => BootTimeStep::Done { nanos },
            BootTimeEvent::Uhyve(None) => BootTimeStep::StartKvmclock,
            BootTimeEvent::Kvmclock(Some(epoch_micros)) => if is_representable(
                epoch_micros * 1000,
            ) {
                BootTimeStep::Done { nanos: (epoch_micros * 1000) as i128 }
            } else {
                BootTimeStep::ReadRtc
            },
            BootTimeEvent::Kvmclock(None) => BootTimeStep::ReadRtc,
            BootTimeEvent::Rtc { current_time, timer_ticks } => BootTimeStep::Done {
                nanos: ((current_time - timer_ticks) * 1000) as i128,
            },
        }
    }

    /// Whether the time of boot is between the UNIX epoch and the year 10000, if it follows from
    /// the real time clock.
    pub open spec fn is_valid(self) -> bool {
        self matches BootTimeEvent::Rtc { current_time, timer_ticks } ==> {
            &&& timer_ticks <= current_time
            &&& is_representable((current_time - timer_ticks) * 1000)
        }
    }
}

/// Takes one step towards the time of boot in nanoseconds since the UNIX epoch, with what has
/// been found out last, starting with what the hypervisor hands to the kernel.
///
/// The epoch that kvmclock reports is the boot instant itself. One that is out of range is
/// passed over in favour of the real time clock, from which the timer ticks are subtracted to
/// get the actual time of boot.
pub fn boot_time(event: BootTimeEvent) -> (step: BootTimeStep)
    requires
        event.is_valid(),
    ensures
        step == event.step(),
{
    match event {
        BootTimeEvent::Uhyve(boot_time) => match boot_time {
            Some(nanos) => BootTimeStep::Done { nanos },
            None => BootTimeStep::StartKvmclock,
        },
        BootTimeEvent::Kvmclock(epoch) => {
            if let Some(epoch_micros) = epoch {
                if let Some(nanos) = offset_date_time(epoch_micros as i128 * 1000) {
                    return BootTimeStep::Done { nanos };
                }
            }
            BootTimeStep::ReadRtc
        },
        BootTimeEvent::Rtc { current_time, timer_ticks } => {
            let boot_micros: u64 = current_time - timer_ticks;
            let boot_nanos: i128 = boot_micros as i128 * 1000;
            BootTimeStep::Done { nanos: offset_date_time(boot_nanos).unwrap() }
        },
    }
}

impl BootTime {
    /// A time of boot that is not known yet.
    pub fn new() -> (boot_time: BootTime)
        ensures
            boot_time.micros is None,
    {
        BootTime { micros: None }
    }
}

/// Records the time of boot, which is given in nanoseconds since the UNIX epoch.
///
/// It is recorded once, and it is no earlier than the UNIX epoch.
pub fn init(cell: &mut BootTime, boot_time: i128)
    requires
        old(cell).micros is None,
        -1000 < boot_time,
        boot_time / 1000 <= u64::MAX,
    ensures
        final(cell).micros == Some(
            (if boot_time < 0 {
                0
            } else {
                boot_time / 1000
            }) as u64,
        ),
{
    let micros: i128 = boot_time / 1000;
    cell.micros = Some(micros as u64);
}

/// Returns the current time in microseconds since UNIX epoch: that of kvmclock if there is one,
/// and otherwise the time of boot plus the timer ticks since.
pub fn now_micros(cell: &BootTime, kvmclock_now: Option<u64>, timer_ticks: u64) -> (now: u64)
    requires
        kvmclock_now is None ==> cell.micros is Some && cell.micros->0 + timer_ticks <= u64::MAX,
    ensures
        now == (match kvmclock_now {
            Some(now) => now as int,
            None => cell.micros->0 + timer_ticks,
        }),
{
    if let Some(now) = kvmclock_now {
        return now;
    }
    cell.micros.unwrap() + timer_ticks
}

/// The clock that the real time clock sets at boot shows the time of the real time clock: some
/// ticks later, it has advanced by as many microseconds.
pub proof fn law_rtc_time_is_told(current_time: u64, timer_ticks: u64, later_ticks: u64)
    requires
        (BootTimeEvent::Rtc { current_time, timer_ticks }).is_valid(),
        timer_ticks <= later_ticks,
    ensures
        (BootTimeEvent::Rtc { current_time, timer_ticks }).step() matches BootTimeStep::Done {
            nanos,
        } && 0 <= nanos && nanos / 1000 + later_ticks == current_time + (later_ticks
            - timer_ticks),
{
}

/// The boot instant of kvmclock is recorded to the microsecond.
pub proof fn law_kvmclock_boot_time_is_kept(epoch_micros: u64)
    requires
        is_representable(epoch_micros * 1000),
    ensures
        BootTimeEvent::Kvmclock(Some(epoch_micros)).step() matches BootTimeStep::Done { nanos }
            && 0 <= nanos && nanos / 1000 == epoch_micros,
{
}

/// A time can be represented exactly if it is before the 1st of January 10000.
pub proof fn law_time_ends_with_the_year_9999(nanos: int)
    ensures
        is_representable(nanos) <==> nanos < days_since_epoch(10_000, 1, 1) * 86_400
            * 1_000_000_000,
{
    lemma_days_before_year(10_000);
}

/// What the hypervisor hands to the kernel is the time of boot; otherwise kvmclock is asked.
pub proof fn law_hypervisor_decides_first(boot_time: Option<i128>)
    ensures
        BootTimeEvent::Uhyve(boot_time).is_valid(),
        boot_time matches Some(nanos) ==> BootTimeEvent::Uhyve(boot_time).step()
            == (BootTimeStep::Done { nanos }),
        boot_time is None ==> BootTimeEvent::Uhyve(boot_time).step() is StartKvmclock,
{
}

/// The instant of kvmclock is the time of boot if it is before the year 10000; otherwise, and where
/// there is none, the real time clock is asked.
pub proof fn law_kvmclock_decides_next(epoch: Option<u64>)
    ensures
        BootTimeEvent::Kvmclock(epoch).is_valid(),
        BootTimeEvent::Kvmclock(epoch).step() is ReadRtc <==> (epoch matches Some(micros) ==> micros
            >= days_since_epoch(10_000, 1, 1) * 86_400_000_000),
        !(BootTimeEvent::Kvmclock(epoch).step() is ReadRtc) ==> (BootTimeEvent::Kvmclock(
            epoch,
        ).step() matches BootTimeStep::Done { nanos } && nanos == epoch->0 * 1000),
{
    lemma_days_before_year(10_000);
}

/// The real time clock decides last: the time of boot is as many microseconds before its time as
/// there were ticks, provided that this is neither before 1970 nor after 9999.
pub proof fn law_rtc_decides_last(current_time: u64, timer_ticks: u64)
    ensures
        (BootTimeEvent::Rtc { current_time, timer_ticks }).is_valid() <==> 0 <= current_time
            - timer_ticks < days_since_epoch(10_000, 1, 1) * 86_400_000_000,
        timer_ticks <= current_time ==> ((BootTimeEvent::Rtc {
            current_time,
            timer_ticks,
        }).step() matches BootTimeStep::Done { nanos } && nanos + timer_ticks * 1000 == current_time
            * 1000),
{
    lemma_days_before_year(10_000);
}

} // verus!
