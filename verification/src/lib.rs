//! User-space access to CPU performance-monitoring counters.
//!
//! The crate centres on the sampled-counter pipeline: a consumer for the
//! kernel-produced circular buffer of measurement records, a decoder that
//! turns raw record bytes into typed values, a seqlock-validated direct
//! counter read, and a metric-expression language that resolves derived
//! metrics into the hardware events they need.

mod api;
mod errors;
mod metrics;
mod msr;
mod rdpmc;
mod records;
mod registry;
mod ring;
mod util;
mod value;
mod version;

pub use api::BaseEvent;
pub use api::Counter;
pub use api::Event;
pub use api::HardwareCounter;
pub use api::ScaledValue;
pub use api::ToPerfString;
pub use errors::Error;
pub use errors::Result;
pub use metrics::EventValues;
pub use metrics::MetricExpr;
pub use metrics::Rational;
pub use msr::MsrAddress;
pub use rdpmc::ReadObservation;
pub use rdpmc::read_counter_rdpmc;
pub use records::CommRecord;
pub use records::ContextSwitchRecord;
pub use records::LostRecord;
pub use records::Mmap2Record;
pub use records::ParsedRecord;
pub use records::ProcessRecord;
pub use records::SampleRecord;
pub use records::ThrottleRecord;
pub use registry::EventWrapper;
pub use registry::find_pmu_by_name;
pub use registry::HPCEvent;
pub use registry::MetricEvent;
pub use registry::RawEvent;
pub use ring::RawRecord;
pub use ring::RecordHeader;
pub use ring::RingBuffer;
pub use ring::RingBufferIter;
pub use util::hexdump;
pub use value::PerfEventValue;
pub use version::PerfVersion;
