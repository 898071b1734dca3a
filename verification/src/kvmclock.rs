//! The KVM paravirtualized clock (kvmclock).
//!
//! Hypervisors that strip the real time clock expose time through kvmclock:
//!
//! * [`MSR_KVM_WALL_CLOCK_NEW`] fills a structure in guest memory with the wall clock time at
//!   kvmclock's zero point, i.e. the boot instant. It is recomputed on every write of the
//!   register, so re-reading it also picks up host-side clock changes -- most importantly the
//!   time a virtual machine spent paused in a snapshot.
//! * [`MSR_KVM_SYSTEM_TIME_NEW`] registers a page that the host keeps updated with an exact
//!   scaling of the time stamp counter to nanoseconds. This gives drift-free monotonic time that
//!   stays continuous across snapshot and restore.
//!
//! Wall time is `epoch + system_time`, with the epoch re-derived at most once per second, so
//! that after a snapshot the wall clock converges to the host's real time within a bounded
//! interval instead of staying behind by the pause duration.
//!
//! Both structures are guarded by a version that is odd while the host updates them, and that
//! is different after an update.
use vstd::arithmetic::power2::{lemma2_to64, lemma_pow2_pos, lemma_pow2_unfold, pow2};
use vstd::prelude::*;

verus! {

/// The register that makes the host fill in the wall clock.
pub const MSR_KVM_WALL_CLOCK_NEW: u32 = 0x4b56_4d00;

/// The register that makes the host keep the system time updated.
pub const MSR_KVM_SYSTEM_TIME_NEW: u32 = 0x4b56_4d01;

/// The bit of the system time register that enables the clock.
pub const MSR_KVM_SYSTEM_TIME_ENABLE: u64 = 1;

/// The leaf of the processor identification that carries the signature of the hypervisor.
pub const KVM_CPUID_SIGNATURE: u32 = 0x4000_0000;

/// The leaf of the processor identification that carries the features of the hypervisor.
pub const KVM_CPUID_FEATURES: u32 = 0x4000_0001;

/// The feature bit that gates the clock registers.
pub const KVM_FEATURE_CLOCKSOURCE2: u32 = 8;

/// The flag that the host sets while the parameters of the clock are consistent over all
/// processors. Only then is it valid to use those of the boot processor on any other.
pub const PVCLOCK_TSC_STABLE_BIT: u8 = 1;

/// How often the epoch is re-derived at most. This bounds how long wall time stays stale after
/// a host-side clock change, which is invisible to the monotonic clock.
pub const EPOCH_REFRESH_INTERVAL_MICROS: u64 = 1_000_000;

/// The latest epoch that the host can fill in.
pub const MAX_EPOCH_MICROS: u64 = 4_294_967_299_294_967;

/// How often reading a structure is tried.
pub const READ_ATTEMPTS: u32 = 1000;

/// The registers that a leaf of the processor identification yields.
#[derive(Clone, Copy, Debug, PartialEq, Eq, Structural)]
pub struct Cpuid {
    /// The register EAX.
    pub eax: u32,
    /// The register EBX.
    pub ebx: u32,
    /// The register ECX.
    pub ecx: u32,
    /// The register EDX.
    pub edx: u32,
}

/// The parameters of the system time.
///
/// `system_time` is the guest time in nanoseconds at the instant the time stamp counter read
/// `tsc_timestamp`; scaling the difference by `tsc_to_system_mul` and `tsc_shift` extrapolates.
#[derive(Clone, Copy, Debug, PartialEq, Eq, Structural)]
pub struct PvclockTimeInfo {
    /// The time stamp counter at `system_time`.
    pub tsc_timestamp: u64,
    /// The time in nanoseconds.
    pub system_time: u64,
    /// The factor of the scaling, in units of 2 to the power of -32.
    pub tsc_to_system_mul: u32,
    /// The power of two to scale by first.
    pub tsc_shift: i8,
    /// The flags of the clock.
    pub flags: u8,
}

/// How far reading the wall clock has come, and thereby what to read next.
#[derive(Clone, Copy, Debug, PartialEq, Eq, Structural)]
pub enum WallClockProgress {
    /// The version is to be read.
    LoadVersion {
        /// The number of attempts that have failed.
        attempt: u32,
    },
    /// The time is to be read, and then the version.
    LoadTime {
        /// The number of attempts that have failed.
        attempt: u32,
        /// The version that was read.
        version: u32,
    },
    /// The reading has ended.
    Done {
        /// The wall time at the zero point of the clock, in microseconds since the UNIX epoch.
        epoch: Option<u64>,
    },
}

/// What was read of the wall clock.
#[derive(Clone, Copy, Debug, PartialEq, Eq, Structural)]
pub enum WallClockEvent {
    /// The version.
    Version(u32),
    /// The time, and the version afterwards.
    Time {
        /// The seconds since the UNIX epoch.
        sec: u32,
        /// The nanoseconds since that second.
        nsec: u32,
        /// The version.
        version: u32,
    },
}

/// How far reading the system time has come, and thereby what to read next.
#[derive(Clone, Copy, Debug, PartialEq, Eq, Structural)]
pub enum SystemTimeProgress {
    /// The version is to be read.
    LoadVersion {
        /// The number of attempts that have failed.
        attempt: u32,
    },
    /// The parameters are to be read, then the time stamp counter, and then the version.
    LoadInfo {
        /// The number of attempts that have failed.
        attempt: u32,
        /// The version that was read.
        version: u32,
    },
    /// The reading has ended.
    Done {
        /// The system time in microseconds.
        micros: Option<u64>,
    },
}

/// What was read of the system time.
#[derive(Clone, Copy, Debug, PartialEq, Eq, Structural)]
pub enum SystemTimeEvent {
    /// The version.
    Version(u32),
    /// The parameters, the time stamp counter, and the version afterwards.
    Info {
        /// The parameters.
        info: PvclockTimeInfo,
        /// The time stamp counter.
        tsc: u64,
        /// The version.
        version: u32,
    },
}

/// The little-endian word of four bytes.
pub open spec fn le_word(b0: u8, b1: u8, b2: u8, b3: u8) -> int {
    b0 + 0x100 * b1 + 0x1_0000 * b2 + 0x100_0000 * b3
}

/// Whether the signature reads `KVMKVMKVM`, padded with zeros.
pub open spec fn has_kvm_signature(sig: Cpuid) -> bool {
    &&& sig.ebx == le_word('K' as u8, 'V' as u8, 'M' as u8, 'K' as u8)
    &&& sig.ecx == le_word('V' as u8, 'M' as u8, 'K' as u8, 'V' as u8)
    &&& sig.edx == le_word('M' as u8, 0, 0, 0)
}

/// Whether the hypervisor is KVM.
pub fn is_kvm(sig: Cpuid) -> (result: bool)
    ensures
        result <==> has_kvm_signature(sig),
{
    sig.ebx == 0x4b4d_564b && sig.ecx == 0x564b_4d56 && sig.edx == 0x0000_004d
}

/// Whether the hypervisor is KVM and advertises the paravirtualized clock.
pub fn available(sig: Cpuid, feat: Cpuid) -> (result: bool)
    ensures
        result <==> has_kvm_signature(sig) && feat.eax as int / 8 % 2 == 1,
{
    if !is_kvm(sig) {
        return false;
    }
    proof {
        let eax = feat.eax;
        assert(eax & 8 != 0 <==> eax / 8 % 2 == 1) by (bit_vector);
    }
    feat.eax & KVM_FEATURE_CLOCKSOURCE2 != 0
}

/// What to write to [`MSR_KVM_SYSTEM_TIME_NEW`] to register the structure at the physical
/// address `phys` and to enable the clock.
pub fn system_time_payload(phys: u64) -> (payload: u64)
    ensures
        payload == phys - phys % 2 + 1,
{
    assert(phys | 1 == phys - phys % 2 + 1) by (bit_vector);
    phys | MSR_KVM_SYSTEM_TIME_ENABLE
}

/// The wall time in microseconds, or `None` if the host has filled in none.
pub open spec fn wall_clock_micros(sec: u32, nsec: u32) -> Option<u64> {
    if sec == 0 && nsec == 0 {
        None
    } else {
        Some((sec * 1_000_000 + nsec / 1000) as u64)
    }
}

impl WallClockProgress {
    /// Whether `event` is what is to be read next.
    pub open spec fn awaits(self, event: WallClockEvent) -> bool {
        match self {
            WallClockProgress::LoadVersion { .. } => event is Version,
            WallClockProgress::LoadTime { .. } => event is Time,
            WallClockProgress::Done { .. } => false,
        }
    }

    /// What comes after a failed attempt.
    pub open spec fn retry(attempt: u32) -> WallClockProgress {
        if attempt + 1 < READ_ATTEMPTS {
            WallClockProgress::LoadVersion { attempt: (attempt + 1) as u32 }
        } else {
            WallClockProgress::Done { epoch: None }
        }
    }

    /// What comes once `event` has been read.
    pub open spec fn advance(self, event: WallClockEvent) -> WallClockProgress {
        match (self, event) {
            (
                WallClockProgress::LoadVersion { attempt },
                WallClockEvent::Version(version),
            ) => if version % 2 != 0 {
                Self::retry(attempt)
            } else {
                WallClockProgress::LoadTime { attempt, version }
            },
            (
                WallClockProgress::LoadTime { attempt, version },
                WallClockEvent::Time { sec, nsec, version: after },
            ) => if version == after {
                WallClockProgress::Done { epoch: wall_clock_micros(sec, nsec) }
            } else {
                Self::retry(attempt)
            },
            _ => self,
        }
    }
}

/// Takes one step towards the wall time at the zero point of the clock, with what was read
/// last, starting from [`WallClockProgress::LoadVersion`] without a failed attempt.
///
/// The host computes the time freshly on every write of [`MSR_KVM_WALL_CLOCK_NEW`], so after a
/// snapshot or a host-side step the epoch shifts to compensate. Sub-microsecond precision is
/// dropped.
pub fn read_wall_clock_epoch(progress: WallClockProgress, event: WallClockEvent) -> (next:
    WallClockProgress)
    requires
        progress.awaits(event),
    ensures
        next == progress.advance(event),
        next matches WallClockProgress::Done { epoch: Some(epoch) } ==> epoch <= MAX_EPOCH_MICROS,
{
    match (progress, event) {
        (WallClockProgress::LoadVersion { attempt }, WallClockEvent::Version(version)) => {
            assert(version & 1 != 0 <==> version % 2 != 0) by (bit_vector);
            if version & 1 != 0 {
                retry_wall_clock(attempt)
            } else {
                WallClockProgress::LoadTime { attempt, version }
            }
        },
        (
            WallClockProgress::LoadTime { attempt, version },
            WallClockEvent::Time { sec, nsec, version: after },
        ) => {
            if version == after {
                if sec == 0 && nsec == 0 {
                    WallClockProgress::Done { epoch: None }
                } else {
                    let epoch: u64 = sec as u64 * 1_000_000 + nsec as u64 / 1000;
                    WallClockProgress::Done { epoch: Some(epoch) }
                }
            } else {
                retry_wall_clock(attempt)
            }
        },
        _ => progress,
    }
}

fn retry_wall_clock(attempt: u32) -> (next: WallClockProgress)
    ensures
        next == WallClockProgress::retry(attempt),
{
    if attempt < READ_ATTEMPTS - 1 {
        WallClockProgress::LoadVersion { attempt: attempt + 1 }
    } else {
        WallClockProgress::Done { epoch: None }
    }
}

/// How many numbers there are of 128 bits.
pub open spec fn two_to_the_128() -> int {
    u128::MAX + 1
}

/// A difference of the time stamp counter, scaled by a power of two, in 128 bits.
pub open spec fn shifted(delta: int, shift: int) -> int {
    if shift >= 0 {
        (delta * pow2(shift as nat)) % two_to_the_128()
    } else {
        delta / (pow2((-shift) as nat) as int)
    }
}

impl PvclockTimeInfo {
    /// The difference of the time stamp counter since `tsc_timestamp`, or zero if it is behind.
    pub open spec fn delta(self, tsc: u64) -> int {
        if tsc < self.tsc_timestamp {
            0
        } else {
            tsc - self.tsc_timestamp
        }
    }

    /// The difference of the time stamp counter in units of 2 to the power of -32 nanoseconds.
    pub open spec fn scaled(self, tsc: u64) -> int {
        shifted(self.delta(tsc), self.tsc_shift as int) * self.tsc_to_system_mul
    }

    /// Whether the difference of the time stamp counter can be scaled in 128 bits.
    pub open spec fn scalable(self, tsc: u64) -> bool {
        self.tsc_shift != i8::MIN && self.scaled(tsc)
            < two_to_the_128()
    }

    /// The time in nanoseconds when the time stamp counter reads `tsc`, in 64 bits.
    pub open spec fn nanos(self, tsc: u64) -> int {
        (self.system_time + self.scaled(tsc) / 0x1_0000_0000 % 0x1_0000_0000_0000_0000)
            % 0x1_0000_0000_0000_0000
    }

    /// Whether the parameters hold on every processor.
    pub open spec fn is_stable(self) -> bool {
        self.flags % 2 == 1
    }

    /// The difference of the time stamp counter, scaled by the power of two.
    fn shifted_delta(&self, tsc: u64) -> (result: u128)
        requires
            self.tsc_shift != i8::MIN,
        ensures
            result == shifted(self.delta(tsc), self.tsc_shift as int),
    {
        let delta: u128 = tsc.saturating_sub(self.tsc_timestamp) as u128;
        if self.tsc_shift >= 0 {
            let shift: u32 = self.tsc_shift as u32;
            proof {
                lemma_shl(delta, shift);
            }
            delta << shift
        } else {
            let shift: u32 = (-(self.tsc_shift as i32)) as u32;
            proof {
                vstd::bits::lemma_u128_shr_is_div(delta, shift as u128);
            }
            delta >> shift
        }
    }

    /// Whether the difference of the time stamp counter can be scaled in 128 bits.
    pub fn is_scalable(&self, tsc: u64) -> (result: bool)
        ensures
            result <==> self.scalable(tsc),
    {
        if self.tsc_shift == i8::MIN {
            return false;
        }
        self.shifted_delta(tsc).checked_mul(self.tsc_to_system_mul as u128).is_some()
    }

    /// The time in nanoseconds when the time stamp counter reads `tsc`.
    fn nanos_at(&self, tsc: u64) -> (nanos: u64)
        requires
            self.scalable(tsc),
        ensures
            nanos == self.nanos(tsc),
    {
        let scaled: u128 = self.shifted_delta(tsc) * self.tsc_to_system_mul as u128;
        assert((scaled >> 32) as u64 == scaled / 0x1_0000_0000 % 0x1_0000_0000_0000_0000u128)
            by (bit_vector);
        self.system_time.wrapping_add((scaled >> 32) as u64)
    }
}

/// Shifting to the left multiplies by a power of two, in 128 bits.
proof fn lemma_shl(x: u128, shift: u32)
    requires
        shift < 128,
    ensures
        x << shift == (x * pow2(shift as nat)) % two_to_the_128(),
    decreases shift,
{
    let modulus: int = two_to_the_128();
    if shift == 0 {
        lemma2_to64();
        assert(x << 0u32 == x) by (bit_vector);
        assert(x * pow2(0) == x) by (nonlinear_arith)
            requires
                pow2(0) == 1,
        ;
    } else {
        let less = (shift - 1) as u32;
        lemma_shl(x, less);
        lemma_pow2_unfold(shift as nat);
        let y = x << less;
        assert(x << shift == (x << less) << 1u32) by (bit_vector)
            requires
                0 < shift < 128,
                less == shift - 1,
        ;
        assert(y < 0x8000_0000_0000_0000_0000_0000_0000_0000 ==> y << 1u32 == y * 2)
            by (bit_vector);
        assert(y >= 0x8000_0000_0000_0000_0000_0000_0000_0000 ==> y << 1u32 == (y
            - 0x8000_0000_0000_0000_0000_0000_0000_0000) * 2) by (bit_vector);
        assert(y << 1u32 == (y * 2) % two_to_the_128());
        let p = pow2(less as nat) as int;
        vstd::arithmetic::div_mod::lemma_mul_mod_noop_left(x * p, 2, modulus);
        assert((x * p) * 2 == x * (2 * p)) by (nonlinear_arith);
        assert(pow2(shift as nat) == 2 * p);
        assert((y * 2) % modulus == ((x * p) * 2) % modulus);
    }
}

impl SystemTimeProgress {
    /// Whether `event` is what is to be read next.
    pub open spec fn awaits(self, event: SystemTimeEvent) -> bool {
        match self {
            SystemTimeProgress::LoadVersion { .. } => event is Version,
            SystemTimeProgress::LoadInfo { .. } => event is Info,
            SystemTimeProgress::Done { .. } => false,
        }
    }

    /// What comes after a failed attempt.
    pub open spec fn retry(attempt: u32) -> SystemTimeProgress {
        if attempt + 1 < READ_ATTEMPTS {
            SystemTimeProgress::LoadVersion { attempt: (attempt + 1) as u32 }
        } else {
            SystemTimeProgress::Done { micros: None }
        }
    }

    /// What comes once `event` has been read.
    pub open spec fn advance(self, event: SystemTimeEvent) -> SystemTimeProgress {
        match (self, event) {
            (
                SystemTimeProgress::LoadVersion { attempt },
                SystemTimeEvent::Version(version),
            ) => if version == 0 {
                SystemTimeProgress::Done { micros: None }
            } else if version % 2 != 0 {
                Self::retry(attempt)
            } else {
                SystemTimeProgress::LoadInfo { attempt, version }
            },
            (
                SystemTimeProgress::LoadInfo { attempt, version },
                SystemTimeEvent::Info { info, tsc, version: after },
            ) => if version != after {
                Self::retry(attempt)
            } else if !info.is_stable() {
                SystemTimeProgress::Done { micros: None }
            } else {
                SystemTimeProgress::Done { micros: Some((info.nanos(tsc) / 1000) as u64) }
            },
            _ => self,
        }
    }

    /// Whether what was read can be evaluated in 128 bits, if it is evaluated at all.
    pub open spec fn evaluable(self, event: SystemTimeEvent) -> bool {
        match (self, event) {
            (
                SystemTimeProgress::LoadInfo { version, .. },
                SystemTimeEvent::Info { info, tsc, version: after },
            ) => version == after && info.is_stable() ==> info.scalable(tsc),
            _ => true,
        }
    }
}

/// Takes one step towards the guest monotonic time in microseconds, with what was read last,
/// starting from [`SystemTimeProgress::LoadVersion`] without a failed attempt.
///
/// There is no time if the structure is unregistered or not yet filled by the host, or if its
/// parameters do not hold on every processor.
pub fn system_time_micros(progress: SystemTimeProgress, event: SystemTimeEvent) -> (next:
    SystemTimeProgress)
    requires
        progress.awaits(event),
        progress.evaluable(event),
    ensures
        next == progress.advance(event),
        next matches SystemTimeProgress::Done { micros: Some(micros) } ==> micros <= u64::MAX
            / 1000,
{
    match (progress, event) {
        (SystemTimeProgress::LoadVersion { attempt }, SystemTimeEvent::Version(version)) => {
            if version == 0 {
                // The host never filled the structure.
                return SystemTimeProgress::Done { micros: None };
            }
            assert(version & 1 != 0 <==> version % 2 != 0) by (bit_vector);
            if version & 1 != 0 {
                retry_system_time(attempt)
            } else {
                SystemTimeProgress::LoadInfo { attempt, version }
            }
        },
        (
            SystemTimeProgress::LoadInfo { attempt, version },
            SystemTimeEvent::Info { info, tsc, version: after },
        ) => {
            if version != after {
                return retry_system_time(attempt);
            }
            proof {
                let flags = info.flags;
                assert(flags & 1 == 0 <==> flags % 2 != 1) by (bit_vector);
            }
            if info.flags & PVCLOCK_TSC_STABLE_BIT == 0 {
                return SystemTimeProgress::Done { micros: None };
            }
            let nanos: u64 = info.nanos_at(tsc);
            SystemTimeProgress::Done { micros: Some(nanos / 1000) }
        },
        _ => progress,
    }
}

fn retry_system_time(attempt: u32) -> (next: SystemTimeProgress)
    ensures
        next == SystemTimeProgress::retry(attempt),
{
    if attempt < READ_ATTEMPTS - 1 {
        SystemTimeProgress::LoadVersion { attempt: attempt + 1 }
    } else {
        SystemTimeProgress::Done { micros: None }
    }
}

/// The wall time at the zero point of the clock, as it was derived last.
#[derive(Clone, Copy, Debug, PartialEq, Eq, Structural)]
pub struct EpochClock {
    /// The wall time at the zero point, in microseconds since the UNIX epoch; 0 if it has not
    /// been derived yet.
    pub epoch_micros: u64,
    /// The system time in microseconds when the epoch was derived last.
    pub epoch_read_at: u64,
    /// Whether the epoch is being derived.
    pub epoch_refreshing: bool,
}

/// What is to be done to tell the wall time.
#[derive(Clone, Copy, Debug, PartialEq, Eq, Structural)]
pub enum NowStep {
    /// The epoch is to be derived anew.
    Derive {
        /// The system time that was read.
        mono_micros: u64,
    },
    /// The wall time has been told.
    Done {
        /// The wall time in microseconds since the UNIX epoch.
        now: Option<u64>,
    },
}

/// What has been done to tell the wall time.
#[derive(Clone, Copy, Debug, PartialEq, Eq, Structural)]
pub enum NowEvent {
    /// The system time has been read.
    SystemTime(Option<u64>),
    /// The epoch has been derived anew.
    Derived {
        /// The system time that was read before.
        mono_micros: u64,
        /// The epoch.
        epoch: Option<u64>,
    },
}

/// The larger of two epochs, or the first if there is no second.
pub open spec fn later_epoch(epoch_micros: u64, epoch: Option<u64>) -> u64 {
    match epoch {
        Some(epoch) => if epoch_micros < epoch {
            epoch
        } else {
            epoch_micros
        },
        None => epoch_micros,
    }
}

impl EpochClock {
    /// Whether the epoch is too old at a system time, and is to be derived anew.
    pub open spec fn is_stale(self, mono_micros: u64) -> bool {
        mono_micros - self.epoch_read_at >= EPOCH_REFRESH_INTERVAL_MICROS
    }

    /// The clock once the epoch has been derived anew.
    pub open spec fn refreshed(self, mono_micros: u64, epoch: Option<u64>) -> EpochClock {
        EpochClock {
            epoch_micros: later_epoch(self.epoch_micros, epoch),
            epoch_read_at: mono_micros,
            epoch_refreshing: false,
        }
    }

    /// The clock after a step towards the wall time.
    pub open spec fn after(self, event: NowEvent) -> EpochClock {
        match event {
            NowEvent::SystemTime(Some(mono_micros)) => if self.epoch_micros != 0 && self.is_stale(
                mono_micros,
            ) {
                EpochClock { epoch_refreshing: true, ..self }
            } else {
                self
            },
            NowEvent::SystemTime(None) => self,
            NowEvent::Derived { mono_micros, epoch } => self.refreshed(mono_micros, epoch),
        }
    }

    /// What is to be done next after a step towards the wall time.
    pub open spec fn step(self, event: NowEvent) -> NowStep {
        match event {
            NowEvent::SystemTime(Some(mono_micros)) => if self.epoch_micros == 0 {
                NowStep::Done { now: None }
            } else if self.is_stale(mono_micros) && !self.epoch_refreshing {
                NowStep::Derive { mono_micros }
            } else {
                NowStep::Done { now: Some((self.epoch_micros + mono_micros) as u64) }
            },
            NowEvent::SystemTime(None) => NowStep::Done { now: None },
            NowEvent::Derived { mono_micros, epoch } => NowStep::Done {
                now: Some((later_epoch(self.epoch_micros, epoch) + mono_micros) as u64),
            },
        }
    }

    /// Whether the wall time that a step would tell is a number of 64 bits.
    pub open spec fn tellable(self, event: NowEvent) -> bool {
        match event {
            NowEvent::SystemTime(Some(mono_micros)) => self.epoch_micros != 0 && (!self.is_stale(
                mono_micros,
            ) || self.epoch_refreshing) ==> self.epoch_micros + mono_micros <= u64::MAX,
            NowEvent::SystemTime(None) => true,
            NowEvent::Derived { mono_micros, epoch } => later_epoch(self.epoch_micros, epoch)
                + mono_micros <= u64::MAX,
        }
    }

    /// A clock whose epoch has not been derived yet.
    pub fn new() -> (clock: EpochClock)
        ensures
            clock == (EpochClock { epoch_micros: 0, epoch_read_at: 0, epoch_refreshing: false }),
    {
        EpochClock { epoch_micros: 0, epoch_read_at: 0, epoch_refreshing: false }
    }
}

/// Claims the derivation of the epoch if the epoch is older than
/// [`EPOCH_REFRESH_INTERVAL_MICROS`] and nobody else is deriving it.
///
/// Returns whether the caller is to derive the epoch and to hand it to [`store_epoch`].
/// Everybody else simply uses the current (still bounded-stale) epoch.
pub fn maybe_refresh_epoch(clock: &mut EpochClock, mono_micros: u64) -> (claimed: bool)
    ensures
        claimed <==> old(clock).is_stale(mono_micros) && !old(clock).epoch_refreshing,
        claimed <==> mono_micros - old(clock).epoch_read_at >= 1_000_000
            && !old(clock).epoch_refreshing,
        final(clock).epoch_micros == old(clock).epoch_micros,
        final(clock).epoch_read_at == old(clock).epoch_read_at,
        final(clock).epoch_refreshing == (old(clock).epoch_refreshing || old(clock).is_stale(
            mono_micros,
        )),
{
    if mono_micros.saturating_sub(clock.epoch_read_at) < EPOCH_REFRESH_INTERVAL_MICROS {
        return false;
    }
    if clock.epoch_refreshing {
        return false;
    }
    clock.epoch_refreshing = true;
    true
}

/// Stores the epoch that was derived at a system time, if it could be derived.
///
/// The derived wall clock never steps backwards. Forward jumps (after a snapshot) pass through;
/// small backward host adjustments are absorbed.
pub fn store_epoch(clock: &mut EpochClock, mono_micros: u64, epoch: Option<u64>)
    ensures
        *final(clock) == old(clock).refreshed(mono_micros, epoch),
{
    if let Some(epoch) = epoch {
        if clock.epoch_micros < epoch {
            clock.epoch_micros = epoch;
        }
    }
    clock.epoch_read_at = mono_micros;
    clock.epoch_refreshing = false;
}

/// Takes one step towards the current wall time in microseconds since the UNIX epoch, with what
/// has been done last, starting with the system time.
///
/// There is no wall time if there is no system time or the epoch has not been derived yet.
pub fn now_micros(clock: &mut EpochClock, event: NowEvent) -> (step: NowStep)
    requires
        old(clock).tellable(event),
    ensures
        *final(clock) == old(clock).after(event),
        step == old(clock).step(event),
{
    match event {
        NowEvent::SystemTime(mono) => {
            let mono_micros: u64 = match mono {
                Some(mono_micros) => mono_micros,
                None => return NowStep::Done { now: None },
            };
            if clock.epoch_micros == 0 {
                return NowStep::Done { now: None };
            }
            if maybe_refresh_epoch(clock, mono_micros) {
                return NowStep::Derive { mono_micros };
            }
            NowStep::Done { now: Some(clock.epoch_micros + mono_micros) }
        },
        NowEvent::Derived { mono_micros, epoch } => {
            store_epoch(clock, mono_micros, epoch);
            NowStep::Done { now: Some(clock.epoch_micros + mono_micros) }
        },
    }
}

/// Starts the clock with the epoch and the system time that were read on the boot processor, if
/// they could be.
///
/// Returns the boot instant in microseconds since the UNIX epoch, or `None` if kvmclock is
/// unavailable; then the clock stays as it is.
pub fn init(clock: &mut EpochClock, available: bool, epoch: Option<u64>, mono: Option<u64>) -> (boot:
    Option<u64>)
    ensures
        boot == (if available {
            epoch
        } else {
            None
        }),
        *final(clock) == (match boot {
            Some(epoch) => EpochClock {
                epoch_micros: epoch,
                epoch_read_at: match mono {
                    Some(mono_micros) => mono_micros,
                    None => 0,
                },
                ..*old(clock)
            },
            None => *old(clock),
        }),
{
    if !available {
        return None;
    }
    let epoch_micros: u64 = match epoch {
        Some(epoch_micros) => epoch_micros,
        None => return None,
    };
    clock.epoch_micros = epoch_micros;
    clock.epoch_read_at = match mono {
        Some(mono_micros) => mono_micros,
        None => 0,
    };
    Some(epoch_micros)
}

impl WallClockProgress {
    /// How far reading the wall clock has come after `events`, if each was what was to be read.
    pub open spec fn progress_after(events: Seq<WallClockEvent>) -> Option<WallClockProgress>
        decreases events.len(),
    {
        if events.len() == 0 {
            Some(WallClockProgress::LoadVersion { attempt: 0 })
        } else {
            match Self::progress_after(events.drop_last()) {
                Some(progress) => if progress.awaits(events.last()) {
                    Some(progress.advance(events.last()))
                } else {
                    None
                },
                None => None,
            }
        }
    }

    /// How much is left to read at most.
    pub open spec fn reads_left(self) -> int {
        match self {
            WallClockProgress::LoadVersion { attempt } => 2 * (READ_ATTEMPTS - attempt),
            WallClockProgress::LoadTime { attempt, .. } => 2 * (READ_ATTEMPTS - attempt) - 1,
            WallClockProgress::Done { .. } => 0,
        }
    }
}

impl SystemTimeProgress {
    /// How far reading the system time has come after `events`, if each was what was to be read.
    pub open spec fn progress_after(events: Seq<SystemTimeEvent>) -> Option<SystemTimeProgress>
        decreases events.len(),
    {
        if events.len() == 0 {
            Some(SystemTimeProgress::LoadVersion { attempt: 0 })
        } else {
            match Self::progress_after(events.drop_last()) {
                Some(progress) => if progress.awaits(events.last()) {
                    Some(progress.advance(events.last()))
                } else {
                    None
                },
                None => None,
            }
        }
    }

    /// How much is left to read at most.
    pub open spec fn reads_left(self) -> int {
        match self {
            SystemTimeProgress::LoadVersion { attempt } => 2 * (READ_ATTEMPTS - attempt),
            SystemTimeProgress::LoadInfo { attempt, .. } => 2 * (READ_ATTEMPTS - attempt) - 1,
            SystemTimeProgress::Done { .. } => 0,
        }
    }
}

/// An epoch was read while the host did not update the wall clock: the version was even, and the
/// same before and after.
pub proof fn law_wall_clock_untorn(events: Seq<WallClockEvent>, epoch: u64)
    requires
        WallClockProgress::progress_after(events) == Some(
            WallClockProgress::Done { epoch: Some(epoch) },
        ),
    ensures
        events.len() >= 2,
        events[events.len() - 2] matches WallClockEvent::Version(version) && version % 2 == 0 && (
        events[events.len() - 1] matches WallClockEvent::Time { sec, nsec, version: after } && after
            == version && wall_clock_micros(sec, nsec) == Some(epoch)),
{
    reveal_with_fuel(WallClockProgress::progress_after, 4);
    assert(events.drop_last().last() == events[events.len() - 2]);
}

/// Reading the wall clock ends after at most two reads for each attempt.
pub proof fn law_wall_clock_ends(events: Seq<WallClockEvent>)
    requires
        WallClockProgress::progress_after(events) is Some,
    ensures
        events.len() + WallClockProgress::progress_after(events)->0.reads_left() <= 2
            * READ_ATTEMPTS,
        WallClockProgress::progress_after(events)->0.reads_left() >= 0,
        WallClockProgress::progress_after(events)->0.reads_left() == 0
            <==> WallClockProgress::progress_after(events)->0 is Done,
    decreases events.len(),
{
    if events.len() > 0 {
        law_wall_clock_ends(events.drop_last());
    }
}

/// A system time was read while the host did not update the parameters: the version was even, not
/// zero, and the same before and after; and the parameters held on every processor.
pub proof fn law_system_time_untorn(events: Seq<SystemTimeEvent>, micros: u64)
    requires
        SystemTimeProgress::progress_after(events) == Some(
            SystemTimeProgress::Done { micros: Some(micros) },
        ),
    ensures
        events.len() >= 2,
        events[events.len() - 2] matches SystemTimeEvent::Version(version) && version % 2 == 0
            && version != 0 && (events[events.len() - 1] matches SystemTimeEvent::Info {
            info,
            tsc,
            version: after,
        } && after == version && info.is_stable() && micros == info.nanos(tsc) / 1000),
{
    reveal_with_fuel(SystemTimeProgress::progress_after, 4);
    assert(events.drop_last().last() == events[events.len() - 2]);
}

/// Reading the system time ends after at most two reads for each attempt.
pub proof fn law_system_time_ends(events: Seq<SystemTimeEvent>)
    requires
        SystemTimeProgress::progress_after(events) is Some,
    ensures
        events.len() + SystemTimeProgress::progress_after(events)->0.reads_left() <= 2
            * READ_ATTEMPTS,
        SystemTimeProgress::progress_after(events)->0.reads_left() >= 0,
        SystemTimeProgress::progress_after(events)->0.reads_left() == 0
            <==> SystemTimeProgress::progress_after(events)->0 is Done,
    decreases events.len(),
{
    if events.len() > 0 {
        law_system_time_ends(events.drop_last());
    }
}

/// A difference of the time stamp counter, scaled by a power of two.
pub open spec fn unbounded_shift(delta: int, shift: int) -> int {
    if shift >= 0 {
        delta * pow2(shift as nat)
    } else {
        delta / (pow2((-shift) as nat) as int)
    }
}

/// As long as nothing exceeds its range, the time is the reference time plus the scaled
/// difference of the time stamp counter, without any loss but of fractions.
pub proof fn law_nanos_exact(info: PvclockTimeInfo, tsc: u64)
    requires
        info.tsc_timestamp <= tsc,
        unbounded_shift(tsc - info.tsc_timestamp, info.tsc_shift as int) < two_to_the_128(),
        info.system_time + unbounded_shift(tsc - info.tsc_timestamp, info.tsc_shift as int)
            * info.tsc_to_system_mul / 0x1_0000_0000 <= u64::MAX,
    ensures
        info.nanos(tsc) == info.system_time + unbounded_shift(
            tsc - info.tsc_timestamp,
            info.tsc_shift as int,
        ) * info.tsc_to_system_mul / 0x1_0000_0000,
{
    let delta = tsc - info.tsc_timestamp;
    let shift = info.tsc_shift as int;
    let ticks = unbounded_shift(delta, shift);
    assert(0 <= ticks) by {
        if shift >= 0 {
            let p = pow2(shift as nat) as int;
            lemma_pow2_pos(shift as nat);
            assert(0 <= delta * p) by (nonlinear_arith)
                requires
                    0 <= delta,
                    0 < p,
            ;
        } else {
            lemma_pow2_pos((-shift) as nat);
            vstd::arithmetic::div_mod::lemma_div_pos_is_pos(delta, pow2((-shift) as nat) as int);
        }
    }
    assert(shifted(delta, shift) == ticks);
    assert(0 <= ticks * info.tsc_to_system_mul) by (nonlinear_arith)
        requires
            0 <= ticks,
            0 <= info.tsc_to_system_mul,
    ;
}

/// A wall time that is made of an epoch and a system time that the host filled in is a number of
/// 64 bits.
pub proof fn law_wall_time_fits(epoch: u64, mono_micros: u64)
    requires
        epoch <= MAX_EPOCH_MICROS,
        mono_micros <= u64::MAX / 1000,
    ensures
        epoch + mono_micros <= u64::MAX,
{
}

impl NowEvent {
    /// The system time that the wall time is told at.
    pub open spec fn mono_micros(self) -> u64 {
        match self {
            NowEvent::SystemTime(Some(mono_micros)) => mono_micros,
            NowEvent::SystemTime(None) => 0,
            NowEvent::Derived { mono_micros, .. } => mono_micros,
        }
    }
}

impl EpochClock {
    /// The clock after any number of steps towards the wall time.
    pub open spec fn after_all(self, events: Seq<NowEvent>) -> EpochClock
        decreases events.len(),
    {
        if events.len() == 0 {
            self
        } else {
            self.after_all(events.drop_last()).after(events.last())
        }
    }
}

/// The epoch never steps backwards.
pub proof fn law_epoch_never_decreases(clock: EpochClock, events: Seq<NowEvent>)
    ensures
        clock.epoch_micros <= clock.after_all(events).epoch_micros,
    decreases events.len(),
{
    if events.len() > 0 {
        law_epoch_never_decreases(clock, events.drop_last());
    }
}

/// The wall time never steps backwards: whatever happens between two times that it is told, the
/// later one is no less, provided that the system time is not.
pub proof fn law_now_never_decreases(
    clock: EpochClock,
    first: NowEvent,
    between: Seq<NowEvent>,
    second: NowEvent,
    first_now: u64,
    second_now: u64,
)
    requires
        clock.tellable(first),
        clock.step(first) == (NowStep::Done { now: Some(first_now) }),
        clock.after(first).after_all(between).tellable(second),
        clock.after(first).after_all(between).step(second) == (NowStep::Done {
            now: Some(second_now),
        }),
        first.mono_micros() <= second.mono_micros(),
    ensures
        first_now <= second_now,
{
    law_epoch_never_decreases(clock.after(first), between);
}

/// The wall time is told with an epoch that is no older than the refresh interval, unless
/// somebody else is deriving it at that moment.
pub proof fn law_staleness_is_bounded(clock: EpochClock, event: NowEvent, now: u64)
    requires
        clock.step(event) == (NowStep::Done { now: Some(now) }),
    ensures
        !clock.after(event).is_stale(event.mono_micros()) || clock.epoch_refreshing,
{
}

/// A host-side jump forwards, as after a snapshot, passes through in full.
pub proof fn law_forward_jumps_pass(clock: EpochClock, mono_micros: u64, epoch: u64)
    requires
        clock.epoch_micros <= epoch,
        epoch + mono_micros <= u64::MAX,
    ensures
        clock.step(NowEvent::Derived { mono_micros, epoch: Some(epoch) }) == (NowStep::Done {
            now: Some((epoch + mono_micros) as u64),
        }),
{
}

/// Reading the system time, without deriving the epoch, leaves the epoch as it was derived last.
proof fn lemma_system_times_keep_epoch(clock: EpochClock, events: Seq<NowEvent>)
    requires
        forall|i: int| 0 <= i < events.len() ==> (#[trigger] events[i]) is SystemTime,
    ensures
        clock.after_all(events).epoch_read_at == clock.epoch_read_at,
        clock.after_all(events).epoch_micros == clock.epoch_micros,
        clock.epoch_refreshing ==> clock.after_all(events).epoch_refreshing,
    decreases events.len(),
{
    if events.len() > 0 {
        lemma_system_times_keep_epoch(clock, events.drop_last());
        assert(events.last() is SystemTime);
    }
}

/// The epoch is derived at most once per refresh interval: after it was derived, it is not to be
/// derived again before the interval has passed.
pub proof fn law_derivations_are_spaced(
    clock: EpochClock,
    derived_at: u64,
    epoch: Option<u64>,
    between: Seq<NowEvent>,
    mono_micros: u64,
)
    requires
        forall|i: int| 0 <= i < between.len() ==> (#[trigger] between[i]) is SystemTime,
        clock.after(NowEvent::Derived { mono_micros: derived_at, epoch }).after_all(between).step(
            NowEvent::SystemTime(Some(mono_micros)),
        ) is Derive,
    ensures
        mono_micros - derived_at >= EPOCH_REFRESH_INTERVAL_MICROS,
{
    lemma_system_times_keep_epoch(
        clock.after(NowEvent::Derived { mono_micros: derived_at, epoch }),
        between,
    );
}

/// The epoch is derived by one caller at a time: from the moment that one is told to derive it
/// until it has done so, nobody else is.
pub proof fn law_one_derivation_at_a_time(
    clock: EpochClock,
    first: NowEvent,
    between: Seq<NowEvent>,
    second: NowEvent,
)
    requires
        clock.step(first) is Derive,
        forall|i: int| 0 <= i < between.len() ==> (#[trigger] between[i]) is SystemTime,
        second is SystemTime,
    ensures
        !(clock.after(first).after_all(between).step(second) is Derive),
{
    lemma_system_times_keep_epoch(clock.after(first), between);
}

/// The signature is the text `KVMKVMKVM`, four characters to a register, the first in the lowest
/// byte, and zeros after it.
pub proof fn law_signature_spells_kvm(sig: Cpuid)
    ensures
        has_kvm_signature(sig) <==> {
            &&& sig.ebx & 0xff == 'K' as u32
            &&& (sig.ebx >> 8) & 0xff == 'V' as u32
            &&& (sig.ebx >> 16) & 0xff == 'M' as u32
            &&& (sig.ebx >> 24) & 0xff == 'K' as u32
            &&& sig.ecx & 0xff == 'V' as u32
            &&& (sig.ecx >> 8) & 0xff == 'M' as u32
            &&& (sig.ecx >> 16) & 0xff == 'K' as u32
            &&& (sig.ecx >> 24) & 0xff == 'V' as u32
            &&& sig.edx == 'M' as u32
        },
{
    let ebx = sig.ebx;
    let ecx = sig.ecx;
    assert(ebx == 0x4b4d_564b <==> ebx & 0xff == 0x4b && (ebx >> 8) & 0xff == 0x56 && (ebx >> 16)
        & 0xff == 0x4d && (ebx >> 24) & 0xff == 0x4b) by (bit_vector);
    assert(ecx == 0x564b_4d56 <==> ecx & 0xff == 0x56 && (ecx >> 8) & 0xff == 0x4d && (ecx >> 16)
        & 0xff == 0x4b && (ecx >> 24) & 0xff == 0x56) by (bit_vector);
}

/// The wall time is that of the host in whole microseconds, and there is none only where the host
/// has filled in nothing. The latest that can be filled in is [`MAX_EPOCH_MICROS`].
pub proof fn law_wall_clock_micros(sec: u32, nsec: u32)
    ensures
        wall_clock_micros(sec, nsec) is None <==> sec + nsec == 0,
        wall_clock_micros(sec, nsec) matches Some(micros) ==> micros * 1000 <= sec * 1_000_000_000
            + nsec < micros * 1000 + 1000 && micros <= MAX_EPOCH_MICROS,
        wall_clock_micros(u32::MAX, u32::MAX) == Some(MAX_EPOCH_MICROS),
{
}

/// The wall clock is told whenever it can be: an even version, followed by a time under the same
/// version, ends the reading with that time, whatever attempt it is.
pub proof fn law_wall_clock_is_told(attempt: u32, version: u32, sec: u32, nsec: u32)
    requires
        version % 2 == 0,
    ensures
        ({
            let start = WallClockProgress::LoadVersion { attempt };
            let middle = WallClockProgress::LoadTime { attempt, version };
            let time = WallClockEvent::Time { sec, nsec, version };
            &&& start.awaits(WallClockEvent::Version(version))
            &&& start.advance(WallClockEvent::Version(version)) == middle
            &&& middle.awaits(time)
            &&& middle.advance(time) == (WallClockProgress::Done {
                epoch: wall_clock_micros(sec, nsec),
            })
        }),
{
}

/// An odd version, or a version that has changed, costs an attempt; after a thousand of them the
/// reading is given up, and not before.
pub proof fn law_wall_clock_is_retried(
    attempt: u32,
    odd: u32,
    version: u32,
    other: u32,
    sec: u32,
    nsec: u32,
)
    requires
        odd % 2 == 1,
        version != other,
    ensures
        ({
            let next = if attempt < 999 {
                WallClockProgress::LoadVersion { attempt: (attempt + 1) as u32 }
            } else {
                WallClockProgress::Done { epoch: None }
            };
            let start = WallClockProgress::LoadVersion { attempt };
            let middle = WallClockProgress::LoadTime { attempt, version };
            let torn = WallClockEvent::Time { sec, nsec, version: other };
            &&& start.awaits(WallClockEvent::Version(odd))
            &&& start.advance(WallClockEvent::Version(odd)) == next
            &&& middle.awaits(torn)
            &&& middle.advance(torn) == next
        }),
{
}

/// The system time is told whenever it can be: an even version other than zero, followed by
/// parameters under the same version that hold on every processor, ends the reading with the time
/// in whole microseconds, whatever the parameters are and whatever attempt it is.
pub proof fn law_system_time_is_told(attempt: u32, version: u32, info: PvclockTimeInfo, tsc: u64)
    requires
        version % 2 == 0,
        version != 0,
        info.flags & 1 == 1,
    ensures
        ({
            let start = SystemTimeProgress::LoadVersion { attempt };
            let middle = SystemTimeProgress::LoadInfo { attempt, version };
            let event = SystemTimeEvent::Info { info, tsc, version };
            &&& start.awaits(SystemTimeEvent::Version(version))
            &&& start.evaluable(SystemTimeEvent::Version(version))
            &&& start.advance(SystemTimeEvent::Version(version)) == middle
            &&& middle.awaits(event)
            &&& middle.evaluable(event) <==> info.scalable(tsc)
            &&& middle.advance(event) matches SystemTimeProgress::Done { micros: Some(micros) }
                && micros * 1000 <= info.nanos(tsc) < micros * 1000 + 1000
        }),
{
    let flags = info.flags;
    assert(flags & 1 == 1 ==> flags % 2 == 1) by (bit_vector);
    law_nanos(info, tsc);
}

/// There is no system time where the host never filled in the parameters, or where they do not
/// hold on every processor.
pub proof fn law_there_is_no_system_time(
    attempt: u32,
    version: u32,
    info: PvclockTimeInfo,
    tsc: u64,
)
    requires
        info.flags & 1 == 0,
    ensures
        ({
            let start = SystemTimeProgress::LoadVersion { attempt };
            let middle = SystemTimeProgress::LoadInfo { attempt, version };
            let event = SystemTimeEvent::Info { info, tsc, version };
            let none = SystemTimeProgress::Done { micros: None };
            &&& start.awaits(SystemTimeEvent::Version(0))
            &&& start.evaluable(SystemTimeEvent::Version(0))
            &&& start.advance(SystemTimeEvent::Version(0)) == none
            &&& middle.awaits(event)
            &&& middle.evaluable(event)
            &&& middle.advance(event) == none
        }),
{
    let flags = info.flags;
    assert(flags & 1 == 0 ==> flags % 2 == 0) by (bit_vector);
}

/// An odd version, or a version that has changed, costs an attempt; after a thousand of them the
/// reading is given up, and not before.
pub proof fn law_system_time_is_retried(
    attempt: u32,
    odd: u32,
    version: u32,
    other: u32,
    info: PvclockTimeInfo,
    tsc: u64,
)
    requires
        odd % 2 == 1,
        version != other,
    ensures
        ({
            let next = if attempt < 999 {
                SystemTimeProgress::LoadVersion { attempt: (attempt + 1) as u32 }
            } else {
                SystemTimeProgress::Done { micros: None }
            };
            let start = SystemTimeProgress::LoadVersion { attempt };
            let middle = SystemTimeProgress::LoadInfo { attempt, version };
            let torn = SystemTimeEvent::Info { info, tsc, version: other };
            &&& start.awaits(SystemTimeEvent::Version(odd))
            &&& start.evaluable(SystemTimeEvent::Version(odd))
            &&& start.advance(SystemTimeEvent::Version(odd)) == next
            &&& middle.awaits(torn)
            &&& middle.evaluable(torn)
            &&& middle.advance(torn) == next
        }),
{
}

/// Scaling by 2 to the power of 0 changes nothing; each power more doubles the outcome in 128 bits,
/// and each power less halves it.
pub proof fn law_scaling_doubles_and_halves(delta: u64, shift: int)
    ensures
        shifted(delta as int, 0) == delta,
        0 <= shift ==> shifted(delta as int, shift + 1) == (2 * shifted(delta as int, shift)) % (
        u128::MAX + 1),
        shift <= 0 ==> shifted(delta as int, shift - 1) == shifted(delta as int, shift) / 2,
{
    let modulus: int = two_to_the_128();
    let d = delta as int;
    lemma2_to64();
    assert(d * pow2(0) == d) by (nonlinear_arith)
        requires
            pow2(0) == 1,
    ;
    assert(shifted(d, 0) == d);
    if 0 <= shift {
        let p = pow2(shift as nat) as int;
        lemma_pow2_unfold((shift + 1) as nat);
        assert(pow2((shift + 1) as nat) == 2 * p);
        assert(d * (2 * p) == 2 * (d * p)) by (nonlinear_arith);
        vstd::arithmetic::div_mod::lemma_mul_mod_noop_right(2, d * p, modulus);
    }
    if shift < 0 {
        let p = pow2((-shift) as nat) as int;
        lemma_pow2_pos((-shift) as nat);
        lemma_pow2_unfold((-shift + 1) as nat);
        assert((shift - 1) == -(-shift + 1));
        assert(pow2((-shift + 1) as nat) == 2 * p);
        vstd::arithmetic::div_mod::lemma_div_denominator(d, p, 2);
        assert(p * 2 == 2 * p);
    } else if shift == 0 {
        assert(pow2(1) == 2);
    }
}

/// The time is the reference time while the time stamp counter is not ahead of its reference, and
/// otherwise later by the scaled difference, in 64 bits. It can be told exactly where the scaled
/// difference has 128 bits.
pub proof fn law_nanos(info: PvclockTimeInfo, tsc: u64)
    ensures
        0 <= info.nanos(tsc) <= u64::MAX,
        tsc <= info.tsc_timestamp ==> info.nanos(tsc) == info.system_time,
        info.tsc_timestamp <= tsc ==> {
            let ticks = shifted(tsc - info.tsc_timestamp, info.tsc_shift as int);
            &&& (info.nanos(tsc) - info.system_time - ticks * info.tsc_to_system_mul
                / 0x1_0000_0000) % 0x1_0000_0000_0000_0000 == 0
            &&& info.scalable(tsc) <==> -128 < info.tsc_shift && ticks * info.tsc_to_system_mul
                <= u128::MAX
        },
{
    if tsc <= info.tsc_timestamp {
        lemma_shifted_zero(info.tsc_shift as int);
        assert(0 * info.tsc_to_system_mul == 0);
    }
}

/// Nothing, scaled, is nothing.
proof fn lemma_shifted_zero(shift: int)
    ensures
        shifted(0, shift) == 0,
{
    if shift >= 0 {
        let p = pow2(shift as nat) as int;
        assert(0 * p == 0) by (nonlinear_arith);
    } else {
        lemma_pow2_pos((-shift) as nat);
        vstd::arithmetic::div_mod::lemma_div_basics(pow2((-shift) as nat) as int);
    }
}

/// An epoch that is a second old or older is derived anew by whoever comes first.
pub proof fn law_stale_epoch_is_derived(clock: EpochClock, mono_micros: u64)
    requires
        clock.epoch_micros != 0,
        mono_micros - clock.epoch_read_at >= 1_000_000,
        !clock.epoch_refreshing,
    ensures
        clock.tellable(NowEvent::SystemTime(Some(mono_micros))),
        clock.step(NowEvent::SystemTime(Some(mono_micros))) == (NowStep::Derive { mono_micros }),
        clock.after(NowEvent::SystemTime(Some(mono_micros))) == (EpochClock {
            epoch_refreshing: true,
            ..clock
        }),
{
}

/// An epoch that is less than a second old is used as it is, and so is any while somebody else is
/// deriving it: the wall time is the epoch plus the system time, and nothing changes.
pub proof fn law_fresh_epoch_is_used(clock: EpochClock, mono_micros: u64)
    requires
        clock.epoch_micros != 0,
        mono_micros - clock.epoch_read_at < 1_000_000 || clock.epoch_refreshing,
    ensures
        clock.tellable(NowEvent::SystemTime(Some(mono_micros))) <==> clock.epoch_micros
            + mono_micros <= u64::MAX,
        clock.epoch_micros + mono_micros <= u64::MAX ==> (clock.step(
            NowEvent::SystemTime(Some(mono_micros)),
        ) matches NowStep::Done { now: Some(now) } && now - mono_micros == clock.epoch_micros),
        clock.after(NowEvent::SystemTime(Some(mono_micros))) == clock,
{
}

/// There is no wall time without a system time or before the epoch has been derived, and nothing
/// changes then.
pub proof fn law_there_is_no_wall_time(clock: EpochClock, mono: Option<u64>)
    requires
        mono is None || clock.epoch_micros == 0,
    ensures
        clock.tellable(NowEvent::SystemTime(mono)),
        clock.step(NowEvent::SystemTime(mono)) == (NowStep::Done { now: None }),
        clock.after(NowEvent::SystemTime(mono)) == clock,
{
}

/// A derived epoch is used from then on if it is later than the last one, and otherwise that stays;
/// either way the derivation has ended, and counts as made at that system time.
pub proof fn law_derived_epoch_is_used(clock: EpochClock, mono_micros: u64, epoch: Option<u64>)
    ensures
        ({
            let event = NowEvent::Derived { mono_micros, epoch };
            let after = clock.after(event);
            &&& after.epoch_micros >= clock.epoch_micros
            &&& epoch matches Some(epoch) ==> after.epoch_micros >= epoch
            &&& after.epoch_micros == clock.epoch_micros || Some(after.epoch_micros) == epoch
            &&& after.epoch_read_at == mono_micros
            &&& !after.epoch_refreshing
            &&& clock.tellable(event) <==> after.epoch_micros + mono_micros <= u64::MAX
            &&& after.epoch_micros + mono_micros <= u64::MAX ==> (clock.step(
                event,
            ) matches NowStep::Done { now: Some(now) } && now - mono_micros == after.epoch_micros)
        }),
{
}

/// Whenever a wall time is told while nobody else is deriving the epoch, the epoch is less than a
/// second old.
pub proof fn law_told_time_is_recent(clock: EpochClock, event: NowEvent, mono_micros: u64, now: u64)
    requires
        event == NowEvent::SystemTime(Some(mono_micros)) || (event matches NowEvent::Derived {
            mono_micros: derived_at,
            ..
        } && derived_at == mono_micros),
        clock.step(event) == (NowStep::Done { now: Some(now) }),
        !clock.epoch_refreshing || event is Derived,
    ensures
        mono_micros - clock.after(event).epoch_read_at < 1_000_000,
{
}

/// The registers of the clock are numbered from the letters `KVM` on, and the leaves of the
/// processor identification from those of hypervisors on.
pub proof fn law_register_numbers()
    ensures
        MSR_KVM_WALL_CLOCK_NEW == le_word(0, 'M' as u8, 'V' as u8, 'K' as u8),
        MSR_KVM_SYSTEM_TIME_NEW == MSR_KVM_WALL_CLOCK_NEW + 1,
        KVM_CPUID_SIGNATURE == pow2(30),
        KVM_CPUID_FEATURES == KVM_CPUID_SIGNATURE + 1,
        KVM_FEATURE_CLOCKSOURCE2 == pow2(3),
        PVCLOCK_TSC_STABLE_BIT == pow2(0),
        MSR_KVM_SYSTEM_TIME_ENABLE == pow2(0),
{
    lemma2_to64();
}

} // verus!
