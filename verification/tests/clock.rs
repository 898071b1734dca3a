//! The real time clock, kvmclock and the time since the UNIX epoch.
use hermit_kernel::kvmclock::{
    available, is_kvm, maybe_refresh_epoch, read_wall_clock_epoch, store_epoch, system_time_micros,
    system_time_payload, Cpuid, EpochClock, NowEvent, NowStep, PvclockTimeInfo, SystemTimeEvent,
    SystemTimeProgress, WallClockEvent, WallClockProgress, EPOCH_REFRESH_INTERVAL_MICROS,
    MAX_EPOCH_MICROS,
};
use hermit_kernel::rtc::{CmosRegisters, Rtc, RtcEvent, RtcProgress};
use hermit_kernel::systemtime::{boot_time, BootTime, BootTimeEvent, BootTimeStep};
use hermit_kernel::{kvmclock, systemtime};

const BINARY_24: u8 = 0x06;
const BINARY_12: u8 = 0x04;
const BCD_24: u8 = 0x02;
const BCD_12: u8 = 0x00;

fn registers(values: [u8; 6]) -> CmosRegisters {
    let [year, month, day, hour, minute, second] = values;
    CmosRegisters { year, month, day, hour, minute, second }
}

#[test]
fn formats_are_flags() {
    assert!(Rtc::new(BINARY_24).is_24_hour_format());
    assert!(Rtc::new(BINARY_24).is_binary_format());
    assert!(!Rtc::new(BINARY_12).is_24_hour_format());
    assert!(!Rtc::new(BCD_24).is_binary_format());
    assert!(Rtc::new(0xff).is_binary_format());
    assert!(!Rtc::new(0xf9).is_binary_format());
    assert!(!Rtc::new(0xf9).is_24_hour_format());
    assert!(Rtc::time_is_pm(0x80));
    assert!(!Rtc::time_is_pm(0x7f));
    assert!(Rtc::update_in_progress(0x80));
    assert!(!Rtc::update_in_progress(0x7f));
}

#[test]
fn bcd_values_are_converted() {
    assert_eq!(Rtc::convert_bcd_value(0x00), 0);
    assert_eq!(Rtc::convert_bcd_value(0x59), 59);
    assert_eq!(Rtc::convert_bcd_value(0x99), 99);
    assert_eq!(Rtc::convert_bcd_value(0xff), 165);
    assert_eq!(Rtc::new(BCD_24).read_datetime_register(0x31), 31);
    assert_eq!(Rtc::new(BINARY_24).read_datetime_register(0x31), 0x31);
}

#[test]
fn dates_are_counted_from_the_epoch() {
    let micros = Rtc::microseconds_from_date;
    assert_eq!(micros(1970, 1, 1, 0, 0, 0), 0);
    assert_eq!(micros(1970, 1, 1, 0, 0, 1), 1_000_000);
    assert_eq!(micros(1970, 12, 31, 0, 0, 0), 31_449_600_000_000);
    assert_eq!(micros(2000, 2, 29, 23, 59, 59), 951_868_799_000_000);
    assert_eq!(micros(2024, 2, 29, 12, 30, 45), 1_709_209_845_000_000);
    assert_eq!(micros(2024, 3, 1, 0, 0, 0), 1_709_251_200_000_000);
    assert_eq!(micros(2025, 1, 1, 0, 0, 0), 1_735_689_600_000_000);
    assert_eq!(micros(2099, 12, 31, 23, 59, 59), 4_102_444_799_000_000);
    // 2100 is no leap year.
    assert_eq!(micros(2100, 3, 1, 0, 0, 0), 4_107_542_400_000_000);
}

#[test]
fn registers_yield_the_time_in_every_format() {
    let afternoon = 1_794_747_909_000_000;
    let binary = registers([26, 11, 15, 13, 5, 9]);
    assert_eq!(Rtc::new(BINARY_24).read_all_values(&binary), afternoon);
    let bcd = registers([0x26, 0x11, 0x15, 0x13, 0x05, 0x09]);
    assert_eq!(Rtc::new(BCD_24).read_all_values(&bcd), afternoon);
    let binary_pm = registers([26, 11, 15, 0x81, 5, 9]);
    assert_eq!(Rtc::new(BINARY_12).read_all_values(&binary_pm), afternoon);
    let bcd_pm = registers([0x26, 0x11, 0x15, 0x81, 0x05, 0x09]);
    assert_eq!(Rtc::new(BCD_12).read_all_values(&bcd_pm), afternoon);
}

#[test]
fn twelve_o_clock_is_midnight_or_noon() {
    let at = |hour| registers([0x26, 0x11, 0x15, hour, 0x05, 0x09]);
    let rtc = Rtc::new(BCD_12);
    assert_eq!(rtc.read_all_values(&at(0x12)), 1_794_701_109_000_000);
    assert_eq!(rtc.read_all_values(&at(0x92)), 1_794_744_309_000_000);
    assert_eq!(rtc.read_all_values(&at(0x11)), 1_794_740_709_000_000);
    let binary = |hour| registers([26, 11, 15, hour, 5, 9]);
    let rtc = Rtc::new(BINARY_12);
    assert_eq!(rtc.read_all_values(&binary(12)), 1_794_701_109_000_000);
    assert_eq!(rtc.read_all_values(&binary(0x8c)), 1_794_744_309_000_000);
}

fn read_rtc(rtc: &Rtc, events: &[RtcEvent]) -> RtcProgress {
    events.iter().fold(RtcProgress::AwaitIdle, |progress, event| {
        rtc.get_microseconds_since_epoch(progress, *event)
    })
}

#[test]
fn a_consistent_time_is_read_twice() {
    let rtc = Rtc::new(BCD_24);
    let time = RtcEvent::Registers(registers([0x25, 0x01, 0x01, 0, 0, 0]));
    let idle = RtcEvent::Status(0x26);
    let busy = RtcEvent::Status(0xa6);
    assert_eq!(read_rtc(&rtc, &[busy, busy]), RtcProgress::AwaitIdle);
    assert_eq!(read_rtc(&rtc, &[busy, idle]), RtcProgress::FirstRead);
    let micros: u64 = 1_735_689_600_000_000;
    assert_eq!(read_rtc(&rtc, &[idle, time]), RtcProgress::Recheck { first: micros });
    assert_eq!(read_rtc(&rtc, &[idle, time, idle]), RtcProgress::SecondRead { first: micros });
    assert_eq!(read_rtc(&rtc, &[idle, time, idle, time]), RtcProgress::Done { micros });
}

#[test]
fn an_inconsistent_time_is_read_again() {
    let rtc = Rtc::new(BCD_24);
    let time = RtcEvent::Registers(registers([0x24, 0x12, 0x31, 0x23, 0x59, 0x59]));
    let next = RtcEvent::Registers(registers([0x25, 0x01, 0x01, 0, 0, 0]));
    let idle = RtcEvent::Status(0);
    let busy = RtcEvent::Status(0x80);
    // An update begins after the first read.
    assert_eq!(read_rtc(&rtc, &[idle, time, busy]), RtcProgress::AwaitIdle);
    // The two reads differ.
    assert_eq!(read_rtc(&rtc, &[idle, time, idle, next]), RtcProgress::AwaitIdle);
    assert_eq!(
        read_rtc(&rtc, &[idle, time, idle, next, idle, next, idle, next]),
        RtcProgress::Done { micros: 1_735_689_600_000_000 }
    );
}

fn kvm() -> Cpuid {
    let word = |bytes: &[u8; 4]| u32::from_le_bytes(*bytes);
    Cpuid { eax: 0x4000_0001, ebx: word(b"KVMK"), ecx: word(b"VMKV"), edx: word(b"M\0\0\0") }
}

fn features(eax: u32) -> Cpuid {
    Cpuid { eax, ebx: 0, ecx: 0, edx: 0 }
}

#[test]
fn kvmclock_needs_kvm_and_the_clock_source() {
    assert!(is_kvm(kvm()));
    assert!(!is_kvm(Cpuid { ebx: 0, ..kvm() }));
    assert!(!is_kvm(Cpuid { ecx: 0, ..kvm() }));
    assert!(!is_kvm(Cpuid { edx: 0, ..kvm() }));
    assert!(available(kvm(), features(8)));
    assert!(!available(kvm(), features(7)));
    assert!(!available(Cpuid { edx: 0, ..kvm() }, features(8)));
    assert_eq!(system_time_payload(0x1234_5640), 0x1234_5641);
}

fn read_wall_clock(events: &[WallClockEvent]) -> WallClockProgress {
    events.iter().fold(WallClockProgress::LoadVersion { attempt: 0 }, |progress, event| {
        read_wall_clock_epoch(progress, *event)
    })
}

fn wall_time(sec: u32, nsec: u32, version: u32) -> WallClockEvent {
    WallClockEvent::Time { sec, nsec, version }
}

#[test]
fn the_wall_clock_is_read_between_equal_even_versions() {
    let even = WallClockEvent::Version(4);
    let odd = WallClockEvent::Version(5);
    assert_eq!(read_wall_clock(&[even]), WallClockProgress::LoadTime { attempt: 0, version: 4 });
    assert_eq!(
        read_wall_clock(&[even, wall_time(1_700_000_000, 123_456_789, 4)]),
        WallClockProgress::Done { epoch: Some(1_700_000_000_123_456) }
    );
    // An update is in progress, or happens meanwhile.
    assert_eq!(read_wall_clock(&[odd]), WallClockProgress::LoadVersion { attempt: 1 });
    assert_eq!(
        read_wall_clock(&[odd, even, wall_time(1, 0, 6)]),
        WallClockProgress::LoadVersion { attempt: 2 }
    );
    assert_eq!(
        read_wall_clock(&[even, wall_time(u32::MAX, u32::MAX, 4)]),
        WallClockProgress::Done { epoch: Some(MAX_EPOCH_MICROS) }
    );
}

#[test]
fn an_empty_wall_clock_has_no_epoch() {
    let even = WallClockEvent::Version(0);
    assert_eq!(
        read_wall_clock(&[even, wall_time(0, 0, 0)]),
        WallClockProgress::Done { epoch: None }
    );
    assert_eq!(
        read_wall_clock(&[even, wall_time(0, 1, 0)]),
        WallClockProgress::Done { epoch: Some(0) }
    );
}

#[test]
fn the_wall_clock_is_given_up_after_many_attempts() {
    let odd = WallClockEvent::Version(1);
    assert_eq!(read_wall_clock(&[odd; 999]), WallClockProgress::LoadVersion { attempt: 999 });
    assert_eq!(read_wall_clock(&[odd; 1000]), WallClockProgress::Done { epoch: None });
}

fn read_system_time(events: &[SystemTimeEvent]) -> SystemTimeProgress {
    events.iter().fold(SystemTimeProgress::LoadVersion { attempt: 0 }, |progress, event| {
        system_time_micros(progress, *event)
    })
}

fn time_info(tsc_shift: i8) -> PvclockTimeInfo {
    PvclockTimeInfo {
        tsc_timestamp: 1_000,
        system_time: 5_000_000,
        tsc_to_system_mul: 0x8000_0000,
        tsc_shift,
        flags: 1,
    }
}

fn system_time(info: PvclockTimeInfo, tsc: u64) -> SystemTimeProgress {
    assert!(info.is_scalable(tsc));
    let version = SystemTimeEvent::Version(2);
    read_system_time(&[version, SystemTimeEvent::Info { info, tsc, version: 2 }])
}

#[test]
fn the_time_stamp_counter_is_scaled() {
    let done = |micros| SystemTimeProgress::Done { micros: Some(micros) };
    // The multiplier is one half.
    assert_eq!(system_time(time_info(0), 1_000), done(5_000));
    assert_eq!(system_time(time_info(0), 1_000 + 4_000_000), done(7_000));
    assert_eq!(system_time(time_info(1), 1_000 + 4_000_000), done(9_000));
    assert_eq!(system_time(time_info(-2), 1_000 + 4_000_000), done(5_500));
    // A counter that is behind counts as equal.
    assert_eq!(system_time(time_info(3), 0), done(5_000));
    // The sum wraps around.
    let late = PvclockTimeInfo { system_time: u64::MAX, ..time_info(1) };
    assert_eq!(system_time(late, 1_000 + 5_000_001), done(5_000));
    // Intermediate results exceed 64 bits.
    let fast = PvclockTimeInfo { tsc_to_system_mul: u32::MAX, ..time_info(0) };
    assert_eq!(system_time(fast, u64::MAX), done(18_446_744_069_419_583));
}

#[test]
fn scaling_has_limits() {
    assert!(!time_info(i8::MIN).is_scalable(1_000));
    assert!(time_info(-127).is_scalable(u64::MAX));
    assert!(time_info(127).is_scalable(1_000));
    assert!(!time_info(127).is_scalable(1_001));
    let idle = PvclockTimeInfo { tsc_to_system_mul: 0, ..time_info(127) };
    assert!(idle.is_scalable(1_001));
}

#[test]
fn the_system_time_is_read_between_equal_even_versions() {
    let info = time_info(0);
    let odd = SystemTimeEvent::Version(3);
    let even = SystemTimeEvent::Version(4);
    let torn = SystemTimeEvent::Info { info, tsc: 1_000, version: 6 };
    let good = SystemTimeEvent::Info { info, tsc: 1_000, version: 4 };
    assert_eq!(read_system_time(&[odd]), SystemTimeProgress::LoadVersion { attempt: 1 });
    assert_eq!(read_system_time(&[even, torn]), SystemTimeProgress::LoadVersion { attempt: 1 });
    assert_eq!(
        read_system_time(&[odd, even, torn, even]),
        SystemTimeProgress::LoadInfo { attempt: 2, version: 4 }
    );
    assert_eq!(
        read_system_time(&[odd, even, torn, even, good]),
        SystemTimeProgress::Done { micros: Some(5_000) }
    );
}

#[test]
fn there_may_be_no_system_time() {
    let none = SystemTimeProgress::Done { micros: None };
    // The host never filled the structure.
    assert_eq!(read_system_time(&[SystemTimeEvent::Version(0)]), none);
    // The parameters do not hold on every processor.
    let info = PvclockTimeInfo { flags: 0xfe, ..time_info(0) };
    let event = SystemTimeEvent::Info { info, tsc: 1_000, version: 2 };
    assert_eq!(read_system_time(&[SystemTimeEvent::Version(2), event]), none);
    // The host keeps updating.
    let odd = SystemTimeEvent::Version(1);
    assert_eq!(read_system_time(&[odd; 999]), SystemTimeProgress::LoadVersion { attempt: 999 });
    assert_eq!(read_system_time(&[odd; 1000]), none);
}

fn started(epoch: u64, mono: u64) -> EpochClock {
    let mut clock = EpochClock::new();
    assert_eq!(kvmclock::init(&mut clock, true, Some(epoch), Some(mono)), Some(epoch));
    clock
}

fn done(now: u64) -> NowStep {
    NowStep::Done { now: Some(now) }
}

#[test]
fn kvmclock_starts_only_where_it_is_available() {
    let mut clock = EpochClock::new();
    assert_eq!(kvmclock::init(&mut clock, false, Some(7), Some(1)), None);
    assert_eq!(kvmclock::init(&mut clock, true, None, Some(1)), None);
    assert_eq!(clock, EpochClock::new());
    assert_eq!(kvmclock::init(&mut clock, true, Some(7), None), Some(7));
    assert_eq!((clock.epoch_micros, clock.epoch_read_at), (7, 0));
    assert_eq!(started(7, 3).epoch_read_at, 3);
}

#[test]
fn wall_time_is_epoch_plus_system_time() {
    let mut clock = started(1_000_000_000, 500);
    let now = kvmclock::now_micros(&mut clock, NowEvent::SystemTime(Some(1_000_499)));
    assert_eq!(now, done(1_001_000_499));
    let none = NowStep::Done { now: None };
    assert_eq!(kvmclock::now_micros(&mut clock, NowEvent::SystemTime(None)), none);
    let mut clock = EpochClock::new();
    assert_eq!(kvmclock::now_micros(&mut clock, NowEvent::SystemTime(Some(5_000_000))), none);
    assert_eq!(clock, EpochClock::new());
}

#[test]
fn a_stale_epoch_is_derived_by_one_caller() {
    let mut clock = started(1_000_000_000, 0);
    let mono: u64 = EPOCH_REFRESH_INTERVAL_MICROS;
    let read = NowEvent::SystemTime(Some(mono));
    assert_eq!(
        kvmclock::now_micros(&mut clock, read),
        NowStep::Derive { mono_micros: mono }
    );
    // Another caller uses the current epoch meanwhile.
    assert_eq!(kvmclock::now_micros(&mut clock, read), done(1_001_000_000));
    let derived = NowEvent::Derived { mono_micros: mono, epoch: Some(2_000_000_000) };
    assert_eq!(kvmclock::now_micros(&mut clock, derived), done(2_001_000_000));
    assert_eq!(kvmclock::now_micros(&mut clock, read), done(2_001_000_000));
    // The next derivation is an interval away.
    let soon = NowEvent::SystemTime(Some(2 * mono - 1));
    assert_eq!(kvmclock::now_micros(&mut clock, soon), done(2_001_999_999));
    let later = NowEvent::SystemTime(Some(2 * mono));
    assert_eq!(
        kvmclock::now_micros(&mut clock, later),
        NowStep::Derive { mono_micros: 2 * mono }
    );
}

#[test]
fn the_wall_clock_never_steps_backwards() {
    let mut clock = started(1_000_000_000, 0);
    assert!(maybe_refresh_epoch(&mut clock, 1_000_000));
    assert!(!maybe_refresh_epoch(&mut clock, 1_000_000));
    store_epoch(&mut clock, 1_000_000, Some(999_999_000));
    assert_eq!(clock.epoch_micros, 1_000_000_000);
    assert_eq!(clock.epoch_read_at, 1_000_000);
    assert!(!clock.epoch_refreshing);
    store_epoch(&mut clock, 3_000_000, None);
    assert_eq!((clock.epoch_micros, clock.epoch_read_at), (1_000_000_000, 3_000_000));
    assert!(!maybe_refresh_epoch(&mut clock, 3_999_999));
    assert!(!maybe_refresh_epoch(&mut clock, 0));
    let derived = NowEvent::Derived { mono_micros: 4_000_000, epoch: Some(5) };
    assert_eq!(kvmclock::now_micros(&mut clock, derived), done(1_004_000_000));
}

#[test]
fn the_hypervisor_decides_the_boot_time_first() {
    assert_eq!(
        boot_time(BootTimeEvent::Uhyve(Some(-5))),
        BootTimeStep::Done { nanos: -5 }
    );
    assert_eq!(boot_time(BootTimeEvent::Uhyve(None)), BootTimeStep::StartKvmclock);
}

#[test]
fn kvmclock_decides_the_boot_time_unless_out_of_range() {
    assert_eq!(
        boot_time(BootTimeEvent::Kvmclock(Some(1_700_000_000_123_456))),
        BootTimeStep::Done { nanos: 1_700_000_000_123_456_000 }
    );
    assert_eq!(
        boot_time(BootTimeEvent::Kvmclock(Some(253_402_300_799_999_999))),
        BootTimeStep::Done { nanos: 253_402_300_799_999_999_000 }
    );
    // The year 10000.
    assert_eq!(
        boot_time(BootTimeEvent::Kvmclock(Some(253_402_300_800_000_000))),
        BootTimeStep::ReadRtc
    );
    assert_eq!(boot_time(BootTimeEvent::Kvmclock(Some(u64::MAX))), BootTimeStep::ReadRtc);
    assert_eq!(boot_time(BootTimeEvent::Kvmclock(None)), BootTimeStep::ReadRtc);
}

#[test]
fn the_real_time_clock_is_ahead_of_boot_by_the_ticks() {
    let event = BootTimeEvent::Rtc { current_time: 1_735_689_600_000_000, timer_ticks: 250_000 };
    assert_eq!(boot_time(event), BootTimeStep::Done { nanos: 1_735_689_599_750_000_000 });
    let mut cell = BootTime::new();
    systemtime::init(&mut cell, 1_735_689_599_750_000_000);
    assert_eq!(systemtime::now_micros(&cell, None, 250_000), 1_735_689_600_000_000);
    assert_eq!(systemtime::now_micros(&cell, None, 1_250_000), 1_735_689_601_000_000);
}

#[test]
fn the_boot_time_is_recorded_in_microseconds() {
    let mut cell = BootTime::new();
    assert_eq!(cell.micros, None);
    systemtime::init(&mut cell, 1_999);
    assert_eq!(cell.micros, Some(1));
    let mut cell = BootTime::new();
    systemtime::init(&mut cell, -999);
    assert_eq!(cell.micros, Some(0));
}

#[test]
fn kvmclock_is_preferred_to_the_ticks() {
    let cell = BootTime { micros: Some(1_000) };
    assert_eq!(systemtime::now_micros(&cell, Some(77), 5), 77);
    assert_eq!(systemtime::now_micros(&cell, None, 5), 1_005);
}
