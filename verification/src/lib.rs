//! The time keeping and memory management logic of a unikernel.
//!
//! The modules compute and decide; reading ports, model specific registers and
//! page tables is left to the kernel around them, which hands plain values in
//! and carries out what is handed back.
pub mod align;
pub mod page_range;
pub mod range_list;
pub mod addresses;
pub mod e820;
pub mod physicalmem;
pub mod mman;
pub mod calendar;
pub mod rtc;
pub mod kvmclock;
pub mod systemtime;
