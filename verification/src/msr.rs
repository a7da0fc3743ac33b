//! Model-specific register addresses used with performance monitoring.

use vstd::prelude::*;

verus! {

/// MSR addresses.
///
/// See the processor vendor's system-programming documentation on
/// performance-monitoring events for details.
#[derive(Debug, Clone, Copy, PartialEq, Eq, Structural)]
#[allow(non_camel_case_types)]
pub enum MsrAddress {
    /// Fixed counter for retired instructions.
    INST_RETIRED_ANY_ADDR,
    /// Fixed counter for unhalted thread cycles.
    CPU_CLK_UNHALTED_THREAD_ADDR,
    /// Fixed counter for unhalted reference cycles.
    CPU_CLK_UNHALTED_REF_ADDR,
    /// Load-latency threshold register.
    MSR_LDLAT,
    /// Frontend qualifier register.
    MSR_FRONTEND,
    /// Global performance-counter control.
    IA32_CR_PERF_GLOBAL_CTRL,
    /// Fixed-counter control.
    IA32_CR_FIXED_CTR_CTRL,
    /// First programmable event-select register.
    IA32_PERFEVTSEL0_ADDR,
    /// Second programmable event-select register.
    IA32_PERFEVTSEL1_ADDR,
    /// Third programmable event-select register.
    IA32_PERFEVTSEL2_ADDR,
    /// Fourth programmable event-select register.
    IA32_PERFEVTSEL3_ADDR,
    /// Number of fixed counters.
    PERF_MAX_FIXED_COUNTERS,
    /// Number of programmable counters.
    PERF_MAX_CUSTOM_COUNTERS,
    /// Total number of counters.
    PERF_MAX_COUNTERS,
    /// Debug control register.
    IA32_DEBUGCTL,
    /// First programmable counter.
    IA32_PMC0,
    /// Second programmable counter.
    IA32_PMC1,
    /// Third programmable counter.
    IA32_PMC2,
    /// Fourth programmable counter.
    IA32_PMC3,
    /// First offcore-response qualifier register.
    MSR_OFFCORE_RSP0,
    /// Second offcore-response qualifier register.
    MSR_OFFCORE_RSP1,
    /// Platform information register.
    PLATFORM_INFO_ADDR,
    /// Timestamp counter.
    IA32_TIME_STAMP_COUNTER,
}

/// The numeric address of each register.
pub open spec fn spec_msr_addr(m: MsrAddress) -> u64 {
    match m {
        MsrAddress::INST_RETIRED_ANY_ADDR => 0x309,
        MsrAddress::CPU_CLK_UNHALTED_THREAD_ADDR => 0x30a,
        MsrAddress::CPU_CLK_UNHALTED_REF_ADDR => 0x30b,
        MsrAddress::MSR_LDLAT => 0x3f6,
        MsrAddress::MSR_FRONTEND => 0x3f7,
        MsrAddress::IA32_CR_PERF_GLOBAL_CTRL => 0x38f,
        MsrAddress::IA32_CR_FIXED_CTR_CTRL => 0x38d,
        MsrAddress::IA32_PERFEVTSEL0_ADDR => 0x186,
        MsrAddress::IA32_PERFEVTSEL1_ADDR => 0x187,
        MsrAddress::IA32_PERFEVTSEL2_ADDR => 0x188,
        MsrAddress::IA32_PERFEVTSEL3_ADDR => 0x189,
        MsrAddress::PERF_MAX_FIXED_COUNTERS => 3,
        MsrAddress::PERF_MAX_CUSTOM_COUNTERS => 8,
        MsrAddress::PERF_MAX_COUNTERS => 11,
        MsrAddress::IA32_DEBUGCTL => 0x1d9,
        MsrAddress::IA32_PMC0 => 0xc1,
        MsrAddress::IA32_PMC1 => 0xc2,
        MsrAddress::IA32_PMC2 => 0xc3,
        MsrAddress::IA32_PMC3 => 0xc4,
        MsrAddress::MSR_OFFCORE_RSP0 => 0x1a6,
        MsrAddress::MSR_OFFCORE_RSP1 => 0x1a7,
        MsrAddress::PLATFORM_INFO_ADDR => 0xce,
        MsrAddress::IA32_TIME_STAMP_COUNTER => 0x10,
    }
}

impl MsrAddress {
    /// The numeric address of this register.
    pub fn addr(&self) -> (r: u64)
        ensures
            r == spec_msr_addr(*self),
    {
        match self {
            MsrAddress::INST_RETIRED_ANY_ADDR => 0x309,
            MsrAddress::CPU_CLK_UNHALTED_THREAD_ADDR => 0x30a,
            MsrAddress::CPU_CLK_UNHALTED_REF_ADDR => 0x30b,
            MsrAddress::MSR_LDLAT => 0x3f6,
            MsrAddress::MSR_FRONTEND => 0x3f7,
            MsrAddress::IA32_CR_PERF_GLOBAL_CTRL => 0x38f,
            MsrAddress::IA32_CR_FIXED_CTR_CTRL => 0x38d,
            MsrAddress::IA32_PERFEVTSEL0_ADDR => 0x186,
            MsrAddress::IA32_PERFEVTSEL1_ADDR => 0x187,
            MsrAddress::IA32_PERFEVTSEL2_ADDR => 0x188,
            MsrAddress::IA32_PERFEVTSEL3_ADDR => 0x189,
            MsrAddress::PERF_MAX_FIXED_COUNTERS => 3,
            MsrAddress::PERF_MAX_CUSTOM_COUNTERS => 8,
            MsrAddress::PERF_MAX_COUNTERS => 11,
            MsrAddress::IA32_DEBUGCTL => 0x1d9,
            MsrAddress::IA32_PMC0 => 0xc1,
            MsrAddress::IA32_PMC1 => 0xc2,
            MsrAddress::IA32_PMC2 => 0xc3,
            MsrAddress::IA32_PMC3 => 0xc4,
            MsrAddress::MSR_OFFCORE_RSP0 => 0x1a6,
            MsrAddress::MSR_OFFCORE_RSP1 => 0x1a7,
            MsrAddress::PLATFORM_INFO_ADDR => 0xce,
            MsrAddress::IA32_TIME_STAMP_COUNTER => 0x10,
        }
    }

    /// Map the registers that qualify an event string to their parameter
    /// prefixes.  Only the load-latency, frontend and offcore-response
    /// registers have one.
    pub fn msr_map(&self) -> (r: &'static str)
        requires
            self is MSR_LDLAT || self is MSR_FRONTEND || self is MSR_OFFCORE_RSP0
                || self is MSR_OFFCORE_RSP1,
        ensures
            self is MSR_LDLAT ==> r@ == "ldlat="@,
            self is MSR_FRONTEND ==> r@ == "frontend="@,
            self is MSR_OFFCORE_RSP0 ==> r@ == "offcore_rsp="@,
            self is MSR_OFFCORE_RSP1 ==> r@ == "offcore_rsp="@,
    {
        match self {
            MsrAddress::MSR_LDLAT => "ldlat=",
            MsrAddress::MSR_FRONTEND => "frontend=",
            MsrAddress::MSR_OFFCORE_RSP0 => "offcore_rsp=",
            _ => "offcore_rsp=",
        }
    }
}

} // verus!
