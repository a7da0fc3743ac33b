//! Decoder that turns one raw ring record into a typed value.
//!
//! The payload layout of each record type is the kernel's ABI for a channel
//! opened with this crate's sampling configuration: multi-byte fields are in
//! native (little-endian) order, and trailing names run to the first NUL
//! byte or to the end of the declared payload.

use vstd::prelude::*;
use vstd::bytes::spec_u32_from_le_bytes;
use vstd::bytes::spec_u64_from_le_bytes;
use vstd::bytes::u32_from_le_bytes;
use vstd::bytes::u64_from_le_bytes;
use vstd::slice::slice_subrange;
use vstd::utf8::decode_utf8;
use vstd::utf8::valid_utf8;

use crate::errors::Error;
use crate::ring::RawRecord;
use crate::value::PerfEventValue;

verus! {

/// Record type for a lost-records notification.
pub const PERF_RECORD_LOST: u32 = 2;

/// Record type for a process-name change.
pub const PERF_RECORD_COMM: u32 = 3;

/// Record type for a process exit.
pub const PERF_RECORD_EXIT: u32 = 4;

/// Record type for a throttle notification.
pub const PERF_RECORD_THROTTLE: u32 = 5;

/// Record type for an unthrottle notification.
pub const PERF_RECORD_UNTHROTTLE: u32 = 6;

/// Record type for a process fork.
pub const PERF_RECORD_FORK: u32 = 7;

/// Record type for a counter sample.
pub const PERF_RECORD_SAMPLE: u32 = 9;

/// Record type for a memory-mapping event with extended geometry.
pub const PERF_RECORD_MMAP2: u32 = 10;

/// Record type for a context switch.
pub const PERF_RECORD_SWITCH: u32 = 14;

/// Flag in a record's `misc` field: the process was switched out.
pub const PERF_RECORD_MISC_SWITCH_OUT: u16 = 0x2000;

/// Flag in a record's `misc` field: the switched-out process was preempted
/// while running.
pub const PERF_RECORD_MISC_SWITCH_OUT_PREEMPT: u16 = 0x4000;

/// Ring buffer records corresponding to context switches.
#[derive(Debug, Clone, PartialEq, Eq, Structural)]
pub enum ContextSwitchRecord {
    /// Process switched in.
    SwitchIn,
    /// Process switched out when idle.
    SwitchOutIdle,
    /// Process switched out when running.
    SwitchOutRunning,
}

/// Ring buffer records corresponding to process forks and exits.
#[derive(Debug, Clone, PartialEq, Eq, Structural)]
pub struct ProcessRecord {
    /// Process id.
    pub pid: u32,
    /// Parent process id.
    pub ppid: u32,
    /// Thread id.
    pub tid: u32,
    /// Parent thread id.
    pub ptid: u32,
    /// Timestamp of the event.
    pub time: u64,
}

/// Ring buffer records corresponding to throttle and unthrottle events.
#[derive(Debug, Clone, PartialEq, Eq, Structural)]
pub struct ThrottleRecord {
    /// Timestamp of the event.
    pub time: u64,
    /// Event id.
    pub id: u64,
    /// Stream id.
    pub stream_id: u64,
}

/// Ring buffer records corresponding to lost samples.
#[derive(Debug, Clone, PartialEq, Eq, Structural)]
pub struct LostRecord {
    /// Event id.
    pub id: u64,
    /// Number of lost records.
    pub num: u64,
}

/// Ring buffer records corresponding to changes in process names.
#[derive(Debug, Clone)]
pub struct CommRecord {
    /// Process id.
    pub pid: u32,
    /// Thread id.
    pub tid: u32,
    /// The new process name.
    pub comm: String,
}

/// Ring buffer records with information about memory-mapping calls.
#[derive(Debug, Clone)]
pub struct Mmap2Record {
    /// Process id.
    pub pid: u32,
    /// Thread id.
    pub tid: u32,
    /// Start address of the mapping.
    pub address: u64,
    /// Length of the mapping.
    pub length: u64,
    /// Page offset of the mapping.
    pub page_offset: u64,
    /// Major number of the backing device.
    pub major: u32,
    /// Minor number of the backing device.
    pub minor: u32,
    /// Inode number of the backing file.
    pub inode: u64,
    /// Inode generation.
    pub inode_generation: u64,
    /// Protection bits of the mapping.
    pub protection: u32,
    /// Flag bits of the mapping.
    pub flags: u32,
    /// Path of the backing file.
    pub filename: String,
}

/// Ring buffer records corresponding to a sampled perf event.
#[derive(Debug, Clone)]
pub struct SampleRecord {
    /// Instruction pointer at the sample.
    pub ip: u64,
    /// Process id.
    pub pid: u32,
    /// Thread id.
    pub tid: u32,
    /// Timestamp of the sample.
    pub time: u64,
    /// CPU that took the sample.
    pub cpu: u32,
    /// Sampling period in force.
    pub period: u64,
    /// The counter value triple.
    pub value: PerfEventValue,
}

/// Ring buffer records with parsed fields.
#[derive(Debug, Clone)]
pub enum ParsedRecord {
    /// Record corresponding to a context switch.
    ContextSwitch(ContextSwitchRecord),
    /// Record corresponding to a process exit.
    Exit(ProcessRecord),
    /// Record corresponding to a process fork.
    Fork(ProcessRecord),
    /// Record corresponding to a throttle notification.
    Throttle(ThrottleRecord),
    /// Record corresponding to an unthrottle notification.
    UnThrottle(ThrottleRecord),
    /// Record corresponding to lost samples.
    Lost(LostRecord),
    /// Record corresponding to a process-name change.
    Comm(CommRecord),
    /// Record corresponding to a memory-mapping event.
    Mmap2(Mmap2Record),
    /// Record corresponding to a counter sample.
    Sample(SampleRecord),
    /// Record of a type this decoder does not recognise; the kernel may emit
    /// record types newer than the decoder, so these are reported rather
    /// than rejected.
    UnknownEvent,
}

/// The 32-bit little-endian value at byte offset `off` of `s`.
pub open spec fn le32(s: Seq<u8>, off: int) -> u32 {
    spec_u32_from_le_bytes(s.subrange(off, off + 4))
}

/// The 64-bit little-endian value at byte offset `off` of `s`.
pub open spec fn le64(s: Seq<u8>, off: int) -> u64 {
    spec_u64_from_le_bytes(s.subrange(off, off + 8))
}

/// The prefix of `bytes` up to (excluding) the first NUL byte, or all of
/// `bytes` if none occurs.
pub open spec fn till_nul(bytes: Seq<u8>) -> Seq<u8>
    decreases bytes.len(),
{
    if bytes.len() == 0 {
        Seq::empty()
    } else if bytes[0] == 0 {
        Seq::empty()
    } else {
        seq![bytes[0]] + till_nul(bytes.drop_first())
    }
}

/// The process record encoded at the front of `d`.
pub open spec fn spec_process_record(d: Seq<u8>) -> ProcessRecord {
    ProcessRecord {
        pid: le32(d, 0),
        ppid: le32(d, 4),
        tid: le32(d, 8),
        ptid: le32(d, 12),
        time: le64(d, 16),
    }
}

/// The throttle record encoded at the front of `d`.
pub open spec fn spec_throttle_record(d: Seq<u8>) -> ThrottleRecord {
    ThrottleRecord { time: le64(d, 0), id: le64(d, 8), stream_id: le64(d, 16) }
}

/// The lost-records record encoded at the front of `d`.
pub open spec fn spec_lost_record(d: Seq<u8>) -> LostRecord {
    LostRecord { id: le64(d, 0), num: le64(d, 8) }
}

/// The context-switch direction encoded in a record's `misc` flags.
pub open spec fn spec_switch_record(misc: u16) -> ContextSwitchRecord {
    if misc & PERF_RECORD_MISC_SWITCH_OUT != 0 {
        if misc & PERF_RECORD_MISC_SWITCH_OUT_PREEMPT != 0 {
            ContextSwitchRecord::SwitchOutRunning
        } else {
            ContextSwitchRecord::SwitchOutIdle
        }
    } else {
        ContextSwitchRecord::SwitchIn
    }
}

/// Relies on core::str::from_utf8: it accepts exactly the valid UTF-8 byte
/// strings and yields the text they encode.
#[verifier::external_body]
fn utf8_to_string(bytes: &[u8]) -> (r: Option<String>)
    ensures
        r is Some <==> valid_utf8(bytes@),
        r matches Some(s) ==> s@ == decode_utf8(bytes@),
{
    match core::str::from_utf8(bytes) {
        Ok(s) => Some(s.to_owned()),
        Err(_) => None,
    }
}

/// Read the 32-bit little-endian value at offset `off`.
fn read_u32_at(d: &Vec<u8>, off: usize) -> (r: u32)
    requires
        off + 4 <= d@.len(),
    ensures
        r == le32(d@, off as int),
{
    let bound: usize = d.len();
    proof {
        assert(off + 4 <= bound);
    }
    u32_from_le_bytes(slice_subrange(d.as_slice(), off, off + 4))
}

/// Read the 64-bit little-endian value at offset `off`.
fn read_u64_at(d: &Vec<u8>, off: usize) -> (r: u64)
    requires
        off + 8 <= d@.len(),
    ensures
        r == le64(d@, off as int),
{
    let bound: usize = d.len();
    proof {
        assert(off + 8 <= bound);
    }
    u64_from_le_bytes(slice_subrange(d.as_slice(), off, off + 8))
}

/// The suffix of `d` from `off`, cut at the first NUL byte.
fn bytes_till_nul(d: &Vec<u8>, off: usize) -> (r: Vec<u8>)
    requires
        off <= d@.len(),
    ensures
        r@ == till_nul(d@.skip(off as int)),
{
    let mut end: usize = off;
    while end < d.len() && d[end] != 0
        invariant
            off <= end <= d@.len(),
            forall|i: int| off <= i < end ==> d@[i] != 0,
        decreases d@.len() - end,
    {
        end += 1;
    }
    let mut out: Vec<u8> = Vec::new();
    let mut i: usize = off;
    while i < end
        invariant
            off <= i <= end <= d@.len(),
            forall|j: int| off <= j < end ==> d@[j] != 0,
            out@ =~= d@.subrange(off as int, i as int),
        decreases end - i,
    {
        out.push(d[i]);
        i += 1;
    }
    proof {
        lemma_till_nul_subrange(d@, off as int, end as int);
    }
    out
}

/// If every byte before `end` is non-NUL and `end` is the length or a NUL
/// byte, the NUL-terminated prefix is exactly the bytes before `end`.
proof fn lemma_till_nul_subrange(d: Seq<u8>, off: int, end: int)
    requires
        0 <= off <= end <= d.len(),
        forall|i: int| off <= i < end ==> d[i] != 0,
        end == d.len() || d[end] == 0,
    ensures
        till_nul(d.skip(off)) == d.subrange(off, end),
    decreases end - off,
{
    let tail = d.skip(off);
    if off == end {
        if tail.len() == 0 {
            assert(till_nul(tail) =~= d.subrange(off, end));
        } else {
            assert(tail[0] == d[off]);
            assert(d[off] == 0);
            assert(till_nul(tail) =~= d.subrange(off, end));
        }
    } else {
        assert(tail[0] == d[off]);
        assert(d[off] != 0);
        lemma_till_nul_subrange(d, off + 1, end);
        assert(tail.drop_first() =~= d.skip(off + 1));
        assert(till_nul(tail) == seq![d[off]] + till_nul(d.skip(off + 1)));
        assert(seq![d[off]] + d.subrange(off + 1, end) =~= d.subrange(off, end));
    }
}

impl RawRecord {
    /// Check if this record is a measurement sample.
    pub fn is_sample(&self) -> (r: bool)
        ensures
            r == (self@.type_ == PERF_RECORD_SAMPLE),
    {
        self.header.type_ == PERF_RECORD_SAMPLE
    }

    /// Parse the raw data in this record to construct a typed record.
    ///
    /// Dispatch is solely on the header's type field; a type this decoder
    /// does not recognise yields `UnknownEvent` so that newer kernels keep
    /// working.  A payload shorter than its type requires is reported as a
    /// truncated record, and a name that is not valid text as a text error.
    pub fn parse(&self) -> (r: Result<ParsedRecord, Error>)
        ensures
            self@.type_ == PERF_RECORD_SWITCH ==> (r matches Ok(p) && p matches
                ParsedRecord::ContextSwitch(c) && c == spec_switch_record(self@.misc)),
            self@.type_ == PERF_RECORD_EXIT || self@.type_ == PERF_RECORD_FORK ==> {
                &&& self@.data.len() >= 24 ==> {
                    ||| (self@.type_ == PERF_RECORD_EXIT && (r matches Ok(p) && p matches
                        ParsedRecord::Exit(pr) && pr == spec_process_record(self@.data)))
                    ||| (self@.type_ == PERF_RECORD_FORK && (r matches Ok(p) && p matches
                        ParsedRecord::Fork(pr) && pr == spec_process_record(self@.data)))
                }
                &&& self@.data.len() < 24 ==> (r matches Err(e) && e is TruncatedRecord)
            },
            self@.type_ == PERF_RECORD_THROTTLE || self@.type_ == PERF_RECORD_UNTHROTTLE ==> {
                &&& self@.data.len() >= 24 ==> {
                    ||| (self@.type_ == PERF_RECORD_THROTTLE && (r matches Ok(p) && p matches
                        ParsedRecord::Throttle(tr) && tr == spec_throttle_record(self@.data)))
                    ||| (self@.type_ == PERF_RECORD_UNTHROTTLE && (r matches Ok(p) && p matches
                        ParsedRecord::UnThrottle(tr) && tr == spec_throttle_record(self@.data)))
                }
                &&& self@.data.len() < 24 ==> (r matches Err(e) && e is TruncatedRecord)
            },
            self@.type_ == PERF_RECORD_LOST ==> {
                &&& self@.data.len() >= 16 ==> (r matches Ok(p) && p matches ParsedRecord::Lost(
                    lr,
                ) && lr == spec_lost_record(self@.data))
                &&& self@.data.len() < 16 ==> (r matches Err(e) && e is TruncatedRecord)
            },
            self@.type_ == PERF_RECORD_COMM ==> {
                &&& self@.data.len() < 8 ==> (r matches Err(e) && e is TruncatedRecord)
                &&& self@.data.len() >= 8 && valid_utf8(till_nul(self@.data.skip(8))) ==> (r
                    matches Ok(p) && p matches ParsedRecord::Comm(c) && c.pid == le32(
                    self@.data,
                    0,
                ) && c.tid == le32(self@.data, 4) && c.comm@ == decode_utf8(
                    till_nul(self@.data.skip(8)),
                ))
                &&& self@.data.len() >= 8 && !valid_utf8(till_nul(self@.data.skip(8))) ==> (r
                    matches Err(e) && e is ParseUtf8)
            },
            self@.type_ == PERF_RECORD_MMAP2 ==> {
                &&& self@.data.len() < 64 ==> (r matches Err(e) && e is TruncatedRecord)
                &&& self@.data.len() >= 64 && valid_utf8(till_nul(self@.data.skip(64))) ==> (r
                    matches Ok(p) && p matches ParsedRecord::Mmap2(m) && m.pid == le32(
                    self@.data,
                    0,
                ) && m.tid == le32(self@.data, 4) && m.address == le64(self@.data, 8) && m.length
                    == le64(self@.data, 16) && m.page_offset == le64(self@.data, 24) && m.major
                    == le32(self@.data, 32) && m.minor == le32(self@.data, 36) && m.inode == le64(
                    self@.data,
                    40,
                ) && m.inode_generation == le64(self@.data, 48) && m.protection == le32(
                    self@.data,
                    56,
                ) && m.flags == le32(self@.data, 60) && m.filename@ == decode_utf8(
                    till_nul(self@.data.skip(64)),
                ))
                &&& self@.data.len() >= 64 && !valid_utf8(till_nul(self@.data.skip(64))) ==> (r
                    matches Err(e) && e is ParseUtf8)
            },
            self@.type_ == PERF_RECORD_SAMPLE ==> {
                &&& self@.data.len() < 72 ==> (r matches Err(e) && e is TruncatedRecord)
                &&& self@.data.len() >= 72 ==> (r matches Ok(p) && p matches ParsedRecord::Sample(
                    s,
                ) && s.ip == le64(self@.data, 0) && s.pid == le32(self@.data, 8) && s.tid == le32(
                    self@.data,
                    12,
                ) && s.time == le64(self@.data, 16) && s.cpu == le32(self@.data, 24) && s.period
                    == le64(self@.data, 32) && s.value.value == le64(self@.data, 40)
                    && s.value.time_enabled == le64(self@.data, 48) && s.value.time_running
                    == le64(self@.data, 56) && s.value.id == le64(self@.data, 64))
            },
            !(self@.type_ == PERF_RECORD_SWITCH || self@.type_ == PERF_RECORD_EXIT
                || self@.type_ == PERF_RECORD_FORK || self@.type_ == PERF_RECORD_THROTTLE
                || self@.type_ == PERF_RECORD_UNTHROTTLE || self@.type_ == PERF_RECORD_LOST
                || self@.type_ == PERF_RECORD_COMM || self@.type_ == PERF_RECORD_MMAP2
                || self@.type_ == PERF_RECORD_SAMPLE) ==> (r matches Ok(p) && p is UnknownEvent),
    {
        let d = &self.data;
        let t = self.header.type_;
        if t == PERF_RECORD_SWITCH {
            let is_out = (self.header.misc & PERF_RECORD_MISC_SWITCH_OUT) != 0;
            let is_preempt = (self.header.misc & PERF_RECORD_MISC_SWITCH_OUT_PREEMPT) != 0;
            Ok(
                ParsedRecord::ContextSwitch(
                    if is_out {
                        if is_preempt {
                            ContextSwitchRecord::SwitchOutRunning
                        } else {
                            ContextSwitchRecord::SwitchOutIdle
                        }
                    } else {
                        ContextSwitchRecord::SwitchIn
                    },
                ),
            )
        } else if t == PERF_RECORD_EXIT || t == PERF_RECORD_FORK {
            if d.len() < 24 {
                return Err(Error::TruncatedRecord);
            }
            let pr = ProcessRecord {
                pid: read_u32_at(d, 0),
                ppid: read_u32_at(d, 4),
                tid: read_u32_at(d, 8),
                ptid: read_u32_at(d, 12),
                time: read_u64_at(d, 16),
            };
            if t == PERF_RECORD_EXIT {
                Ok(ParsedRecord::Exit(pr))
            } else {
                Ok(ParsedRecord::Fork(pr))
            }
        } else if t == PERF_RECORD_THROTTLE || t == PERF_RECORD_UNTHROTTLE {
            if d.len() < 24 {
                return Err(Error::TruncatedRecord);
            }
            let tr = ThrottleRecord {
                time: read_u64_at(d, 0),
                id: read_u64_at(d, 8),
                stream_id: read_u64_at(d, 16),
            };
            if t == PERF_RECORD_THROTTLE {
                Ok(ParsedRecord::Throttle(tr))
            } else {
                Ok(ParsedRecord::UnThrottle(tr))
            }
        } else if t == PERF_RECORD_LOST {
            if d.len() < 16 {
                return Err(Error::TruncatedRecord);
            }
            Ok(ParsedRecord::Lost(LostRecord { id: read_u64_at(d, 0), num: read_u64_at(d, 8) }))
        } else if t == PERF_RECORD_COMM {
            if d.len() < 8 {
                return Err(Error::TruncatedRecord);
            }
            let name_bytes = bytes_till_nul(d, 8);
            match utf8_to_string(name_bytes.as_slice()) {
                Some(comm) => Ok(
                    ParsedRecord::Comm(
                        CommRecord { pid: read_u32_at(d, 0), tid: read_u32_at(d, 4), comm },
                    ),
                ),
                None => Err(Error::ParseUtf8),
            }
        } else if t == PERF_RECORD_MMAP2 {
            if d.len() < 64 {
                return Err(Error::TruncatedRecord);
            }
            let name_bytes = bytes_till_nul(d, 64);
            match utf8_to_string(name_bytes.as_slice()) {
                Some(filename) => Ok(
                    ParsedRecord::Mmap2(
                        Mmap2Record {
                            pid: read_u32_at(d, 0),
                            tid: read_u32_at(d, 4),
                            address: read_u64_at(d, 8),
                            length: read_u64_at(d, 16),
                            page_offset: read_u64_at(d, 24),
                            major: read_u32_at(d, 32),
                            minor: read_u32_at(d, 36),
                            inode: read_u64_at(d, 40),
                            inode_generation: read_u64_at(d, 48),
                            protection: read_u32_at(d, 56),
                            flags: read_u32_at(d, 60),
                            filename,
                        },
                    ),
                ),
                None => Err(Error::ParseUtf8),
            }
        } else if t == PERF_RECORD_SAMPLE {
            if d.len() < 72 {
                return Err(Error::TruncatedRecord);
            }
            let value = PerfEventValue {
                value: read_u64_at(d, 40),
                time_enabled: read_u64_at(d, 48),
                time_running: read_u64_at(d, 56),
                id: read_u64_at(d, 64),
            };
            Ok(
                ParsedRecord::Sample(
                    SampleRecord {
                        ip: read_u64_at(d, 0),
                        pid: read_u32_at(d, 8),
                        tid: read_u32_at(d, 12),
                        time: read_u64_at(d, 16),
                        cpu: read_u32_at(d, 24),
                        period: read_u64_at(d, 32),
                        value,
                    },
                ),
            )
        } else {
            Ok(ParsedRecord::UnknownEvent)
        }
    }
}

} // verus!
