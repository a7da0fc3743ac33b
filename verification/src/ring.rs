//! Consumer for the kernel-produced circular buffer of measurement records.
//!
//! The kernel appends records to a fixed-size byte region and advances a
//! monotonic write cursor (`data_head`); the consumer reads records and
//! advances a monotonic read cursor (`data_tail`).  Both cursors address the
//! region modulo its size, so a record may straddle the wraparound boundary.
//! This module models that region as owned bytes: the platform glue that maps
//! the real shared memory copies the kernel-visible state in and mirrors the
//! consumed cursor back out.

use vstd::prelude::*;
use vstd::arithmetic::div_mod::lemma_add_mod_noop;
use vstd::arithmetic::div_mod::lemma_mod_bound;
use vstd::arithmetic::div_mod::lemma_mod_decreases;
use vstd::arithmetic::div_mod::lemma_mod_twice;
use vstd::bytes::spec_u16_from_le_bytes;
use vstd::bytes::spec_u32_from_le_bytes;
use vstd::bytes::u16_from_le_bytes;
use vstd::bytes::u32_from_le_bytes;

use crate::errors::Error;

verus! {

/// Maximum total size in bytes of one record, header included.
///
/// A record that straddles the wraparound boundary is staged into a scratch
/// buffer of this capacity, so this is the largest record the consumer
/// supports; the record shapes this crate decodes all fit well within it.
pub const MAX_RECORD_BYTES: u16 = 256;

/// Size in bytes of a record header: a 32-bit type, 16 bits of flags and a
/// 16-bit total record size.
pub const HEADER_BYTES: u16 = 8;

/// Header of one record in the ring: its type, miscellaneous flags and total
/// size in bytes (header included).
#[derive(Debug, Clone, PartialEq, Eq, Structural)]
pub struct RecordHeader {
    /// Discriminates the record's payload shape.
    pub type_: u32,
    /// Miscellaneous flags; for context-switch records they carry the
    /// switch direction.
    pub misc: u16,
    /// Total size of the record in bytes, header included.
    pub size: u16,
}

/// One record read out of the ring: its header and the payload bytes that
/// follow it.
#[derive(Debug, Clone)]
pub struct RawRecord {
    /// Event header containing information about the type of the event.
    pub header: RecordHeader,
    /// The payload: the record's bytes after the header.
    pub data: Vec<u8>,
}

/// Mathematical model of one record: the header fields and the payload bytes.
pub struct RawRecordModel {
    /// Discriminates the record's payload shape.
    pub type_: u32,
    /// Miscellaneous flags.
    pub misc: u16,
    /// Total size of the record in bytes, header included.
    pub size: u16,
    /// The payload bytes after the header.
    pub data: Seq<u8>,
}

impl View for RawRecord {
    type V = RawRecordModel;

    open spec fn view(&self) -> RawRecordModel {
        RawRecordModel {
            type_: self.header.type_,
            misc: self.header.misc,
            size: self.header.size,
            data: self.data@,
        }
    }
}

/// The byte of the circular region `data` at unwrapped position `pos`.
pub open spec fn circ_index(data: Seq<u8>, pos: int) -> u8
    recommends
        data.len() > 0,
{
    data[pos % (data.len() as int)]
}

/// `n` bytes of the circular region `data` starting at unwrapped position
/// `pos`; a non-positive count reads nothing.
pub open spec fn circ_read(data: Seq<u8>, pos: int, n: int) -> Seq<u8> {
    let count: nat = if n <= 0 {
        0
    } else {
        n as nat
    };
    Seq::new(count, |i: int| circ_index(data, pos + i))
}

/// The record type encoded at position `pos`, in native (little-endian)
/// order.
pub open spec fn header_type(data: Seq<u8>, pos: int) -> u32 {
    spec_u32_from_le_bytes(circ_read(data, pos, 4))
}

/// The record flags encoded at position `pos`.
pub open spec fn header_misc(data: Seq<u8>, pos: int) -> u16 {
    spec_u16_from_le_bytes(circ_read(data, pos + 4, 2))
}

/// The record size encoded at position `pos`.
pub open spec fn header_size(data: Seq<u8>, pos: int) -> u16 {
    spec_u16_from_le_bytes(circ_read(data, pos + 6, 2))
}

/// Whether a declared record size is one the consumer accepts while `avail`
/// bytes remain unconsumed: at least a header, aligned to the platform's
/// 8-byte record alignment, within the scratch capacity, and not reaching
/// past what the producer has committed.
pub open spec fn valid_record_size(sz: u16, avail: int) -> bool {
    &&& HEADER_BYTES <= sz
    &&& sz <= MAX_RECORD_BYTES
    &&& sz % 8 == 0
    &&& sz <= avail
}

/// The record whose header sits at unwrapped position `pos`.
pub open spec fn record_at(data: Seq<u8>, pos: int) -> RawRecordModel {
    RawRecordModel {
        type_: header_type(data, pos),
        misc: header_misc(data, pos),
        size: header_size(data, pos),
        data: circ_read(data, pos + 8, header_size(data, pos) - 8),
    }
}

/// The records laid out one after another in the circular region `data`,
/// starting at unwrapped position `pos` with `avail` bytes committed but not
/// yet consumed.  Parsing stops at the first record whose declared size is
/// not acceptable.
pub open spec fn records_from(data: Seq<u8>, pos: int, avail: int) -> Seq<RawRecordModel>
    decreases avail,
{
    if data.len() == 0 || avail <= 0 {
        Seq::empty()
    } else {
        let sz = header_size(data, pos);
        if !valid_record_size(sz, avail) {
            Seq::empty()
        } else {
            seq![record_at(data, pos)] + records_from(data, pos + sz, avail - sz)
        }
    }
}

/// Whether the `avail` committed bytes at `pos` parse into records exactly:
/// every record's size is acceptable and together they consume all `avail`
/// bytes.
pub open spec fn wf_stream(data: Seq<u8>, pos: int, avail: int) -> bool
    decreases avail,
{
    if avail <= 0 {
        avail == 0
    } else {
        let sz = header_size(data, pos);
        &&& data.len() > 0
        &&& valid_record_size(sz, avail)
        &&& wf_stream(data, pos + sz, avail - sz)
    }
}

/// Sum of the declared sizes of a sequence of records.
pub open spec fn records_total_bytes(recs: Seq<RawRecordModel>) -> int
    decreases recs.len(),
{
    if recs.len() == 0 {
        0
    } else {
        recs[0].size + records_total_bytes(recs.drop_first())
    }
}

/// Whether `n` is a positive power of two.
pub open spec fn is_power_of_two(n: int) -> bool
    decreases n,
{
    if n <= 0 {
        false
    } else if n == 1 {
        true
    } else {
        n % 2 == 0 && is_power_of_two(n / 2)
    }
}

/// The circular region with the bytes `bs` written starting at unwrapped
/// position `pos`; positions outside the written window keep their bytes.
pub open spec fn circ_write(data: Seq<u8>, pos: int, bs: Seq<u8>) -> Seq<u8> {
    Seq::new(
        data.len(),
        |i: int|
            {
                let off = (i - pos) % (data.len() as int);
                if 0 <= off < bs.len() {
                    bs[off]
                } else {
                    data[i]
                }
            },
    )
}

/// Reading circularly from `pos` is the same as reading from `pos` reduced
/// modulo the region size.
pub proof fn lemma_circ_read_mod(data: Seq<u8>, pos: int, n: int)
    requires
        data.len() > 0,
    ensures
        circ_read(data, pos % (data.len() as int), n) == circ_read(data, pos, n),
{
    let len = data.len() as int;
    assert forall|i: int| 0 <= i < n implies #[trigger] circ_index(data, pos % len + i) == circ_index(
        data,
        pos + i,
    ) by {
        lemma_mod_twice(pos, len);
        lemma_add_mod_noop(pos, i, len);
        lemma_add_mod_noop(pos % len, i, len);
    }
    assert(circ_read(data, pos % len, n) =~= circ_read(data, pos, n));
}

/// The record model at `pos` equals the one at `pos` reduced modulo the
/// region size.
pub proof fn lemma_record_at_mod(data: Seq<u8>, pos: int)
    requires
        data.len() > 0,
    ensures
        record_at(data, pos % (data.len() as int)) == record_at(data, pos),
{
    let len = data.len() as int;
    lemma_circ_read_mod(data, pos, 4);
    lemma_circ_read_mod(data, pos + 6, 2);
    lemma_circ_read_mod(data, pos + 4, 2);
    lemma_mod_twice(pos, len);
    lemma_add_mod_noop(pos, 6, len);
    lemma_add_mod_noop(pos % len, 6, len);
    assert(circ_read(data, pos % len + 6, 2) =~= circ_read(data, pos + 6, 2)) by {
        assert forall|i: int| 0 <= i < 2 implies #[trigger] circ_index(data, pos % len + 6 + i) == circ_index(
            data,
            pos + 6 + i,
        ) by {
            lemma_add_mod_noop(pos, 6 + i, len);
            lemma_add_mod_noop(pos % len, 6 + i, len);
        }
    }
    assert forall|i: int| 0 <= i < 4 implies #[trigger] circ_index(data, pos % len + i) == circ_index(
        data,
        pos + i,
    ) by {
        lemma_add_mod_noop(pos, i, len);
        lemma_add_mod_noop(pos % len, i, len);
    }
    assert(circ_read(data, pos % len, 4) =~= circ_read(data, pos, 4));
    assert forall|i: int| 0 <= i < 2 implies #[trigger] circ_index(data, pos % len + 4 + i) == circ_index(
        data,
        pos + 4 + i,
    ) by {
        lemma_add_mod_noop(pos, 4 + i, len);
        lemma_add_mod_noop(pos % len, 4 + i, len);
    }
    assert(circ_read(data, pos % len + 4, 2) =~= circ_read(data, pos + 4, 2));
    let sz = header_size(data, pos) as int;
    assert forall|i: int| 0 <= i < sz - 8 implies #[trigger] circ_index(data, pos % len + 8 + i)
        == circ_index(data, pos + 8 + i) by {
        lemma_add_mod_noop(pos, 8 + i, len);
        lemma_add_mod_noop(pos % len, 8 + i, len);
    }
    assert(circ_read(data, pos % len + 8, sz - 8) =~= circ_read(data, pos + 8, sz - 8));
}

/// The records parsed from `pos` equal those parsed from `pos` reduced
/// modulo the region size.
pub proof fn lemma_records_from_mod(data: Seq<u8>, pos: int, avail: int)
    requires
        data.len() > 0,
    ensures
        records_from(data, pos % (data.len() as int), avail) == records_from(data, pos, avail),
    decreases avail,
{
    let len = data.len() as int;
    lemma_record_at_mod(data, pos);
    if avail > 0 {
        let sz = header_size(data, pos);
        if valid_record_size(sz, avail) {
            lemma_records_from_mod(data, pos + sz, avail - sz);
            lemma_records_from_mod(data, pos % len + sz, avail - sz);
            lemma_mod_twice(pos, len);
            lemma_add_mod_noop(pos, sz as int, len);
            lemma_add_mod_noop(pos % len, sz as int, len);
            assert((pos % len + sz) % len == (pos + sz) % len);
            assert(records_from(data, pos % len + sz, avail - sz) == records_from(
                data,
                pos + sz,
                avail - sz,
            ));
        }
    }
}

/// Writing one more byte extends a circular write by one.
proof fn lemma_circ_write_step(data: Seq<u8>, h: int, bs: Seq<u8>, j: int)
    requires
        data.len() > 0,
        h >= 0,
        0 <= j < bs.len(),
        bs.len() <= data.len(),
    ensures
        circ_write(data, h, bs.take(j)).update(
            (h + j) % (data.len() as int),
            bs[j],
        ) =~= circ_write(data, h, bs.take(j + 1)),
{
    let len = data.len() as int;
    let idx = (h + j) % len;
    lemma_mod_bound(h + j, len);
    assert forall|i: int| 0 <= i < len implies circ_write(data, h, bs.take(j)).update(idx, bs[j])[i]
        == circ_write(data, h, bs.take(j + 1))[i] by {
        let off = (i - h) % len;
        lemma_mod_bound(i - h, len);
        vstd::arithmetic::div_mod::lemma_small_mod(i as nat, len as nat);
        vstd::arithmetic::div_mod::lemma_small_mod(j as nat, len as nat);
        vstd::arithmetic::div_mod::lemma_mod_equivalence(i - h, j, len);
        vstd::arithmetic::div_mod::lemma_mod_equivalence(i, h + j, len);
        assert((off == j) <==> (i == idx));
    }
}

/// Userspace consumer state for a sampled measurement channel's ring.
///
/// `data` models the circular data region, `head` the producer's monotonic
/// write cursor and `tail` the consumer's monotonic read cursor.  The glue
/// that owns the real kernel mapping refreshes `data` and `head` from the
/// shared pages and mirrors `tail` back into the control page's `data_tail`
/// field after every `advance`.
#[derive(Debug)]
pub struct RingBuffer {
    /// The bytes of the circular data region.
    data: Vec<u8>,
    /// Bytes written by the producer since creation; wraps around the region
    /// modulo its size.
    head: u64,
    /// Bytes consumed by this consumer since creation.
    ///
    /// This is the value mirrored into the control page's `data_tail`.
    tail: u64,
}

impl RingBuffer {
    /// Well-formedness of the consumer state: a non-empty region of 8-byte
    /// aligned size, with the consumed cursor no further than the written
    /// one and at most a full region of unconsumed bytes.
    pub closed spec fn wf(&self) -> bool {
        &&& self.data@.len() > 0
        &&& self.data@.len() % 8 == 0
        &&& self.data@.len() <= 0x1000_0000
        &&& self.tail <= self.head
        &&& self.head - self.tail <= self.data@.len()
    }

    /// The bytes of the circular data region.
    pub closed spec fn spec_data(&self) -> Seq<u8> {
        self.data@
    }

    /// The producer's monotonic write cursor.
    pub closed spec fn spec_head(&self) -> u64 {
        self.head
    }

    /// The consumer's monotonic read cursor.
    pub closed spec fn spec_tail(&self) -> u64 {
        self.tail
    }

    /// Size in bytes of the data region.
    pub open spec fn spec_size(&self) -> int {
        self.spec_data().len() as int
    }

    /// The unconsumed byte count as the consumer sees it: the distance
    /// between the cursors' wrapped positions.  A producer exactly one full
    /// region ahead is indistinguishable from one that has written nothing.
    pub open spec fn spec_avail(&self) -> int {
        (self.spec_head() - self.spec_tail()) % self.spec_size()
    }

    /// The records currently visible to the consumer.
    pub open spec fn spec_records(&self) -> Seq<RawRecordModel> {
        records_from(self.spec_data(), self.spec_tail() as int, self.spec_avail())
    }

    /// Create a consumer for a zeroed region of `npages` pages of
    /// `page_size` bytes each.
    ///
    /// The page count must be a power of two and the page size a positive
    /// multiple of 8; the region must stay within the supported bound.
    pub fn new(npages: usize, page_size: usize) -> (r: Result<RingBuffer, Error>)
        ensures
            match r {
                Ok(rb) => {
                    &&& rb.wf()
                    &&& is_power_of_two(npages as int)
                    &&& page_size > 0
                    &&& page_size % 8 == 0
                    &&& npages * page_size <= 0x1000_0000
                    &&& rb.spec_size() == npages * page_size
                    &&& rb.spec_head() == 0
                    &&& rb.spec_tail() == 0
                    &&& rb.spec_data() =~= Seq::new((npages * page_size) as nat, |i: int| 0u8)
                },
                Err(e) => {
                    &&& e is InvalidBufferSize
                    &&& !(is_power_of_two(npages as int) && page_size > 0 && page_size % 8 == 0
                        && npages * page_size <= 0x1000_0000)
                },
            },
    {
        if !check_power_of_two(npages) || page_size == 0 || page_size % 8 != 0 {
            return Err(Error::InvalidBufferSize);
        }
        if npages > 0x1000_0000 / page_size {
            proof {
                assert(npages * page_size > 0x1000_0000) by (nonlinear_arith)
                    requires
                        npages > 0x1000_0000int / (page_size as int),
                        page_size > 0;
            }
            return Err(Error::InvalidBufferSize);
        }
        proof {
            assert(npages * page_size <= 0x1000_0000) by (nonlinear_arith)
                requires
                    npages <= 0x1000_0000int / (page_size as int),
                    page_size > 0;
            assert(page_size == 8 * (page_size as int / 8));
            assert(npages * page_size == 8 * (npages * (page_size as int / 8)))
                by (nonlinear_arith)
                requires
                    page_size == 8 * (page_size as int / 8);
            vstd::arithmetic::div_mod::lemma_mod_multiples_basic(
                npages * (page_size as int / 8),
                8,
            );
            assert(8 * (npages * (page_size as int / 8)) == (npages * (page_size as int / 8)) * 8)
                by (nonlinear_arith);
            assert(npages * page_size >= page_size) by (nonlinear_arith)
                requires
                    npages >= 1,
                    page_size >= 0;
        }
        let size: usize = npages * page_size;
        let mut data: Vec<u8> = Vec::new();
        while data.len() < size
            invariant
                data@.len() <= size,
                data@ =~= Seq::new(data@.len(), |i: int| 0u8),
            decreases size - data@.len(),
        {
            data.push(0u8);
        }
        Ok(RingBuffer { data, head: 0, tail: 0 })
    }

    /// Append `bytes` at the producer's cursor, modelling the kernel
    /// committing that many bytes of new records.
    pub fn produce(&mut self, bytes: &Vec<u8>)
        requires
            old(self).wf(),
            bytes@.len() % 8 == 0,
            old(self).spec_head() - old(self).spec_tail() + bytes@.len()
                <= old(self).spec_size(),
            old(self).spec_head() + bytes@.len() <= u64::MAX,
        ensures
            final(self).wf(),
            final(self).spec_size() == old(self).spec_size(),
            final(self).spec_tail() == old(self).spec_tail(),
            final(self).spec_head() == old(self).spec_head() + bytes@.len(),
            final(self).spec_data() == circ_write(
                old(self).spec_data(),
                old(self).spec_head() as int,
                bytes@,
            ),
    {
        let len = self.data.len();
        let start: usize = (self.head % (len as u64)) as usize;
        proof {
            lemma_mod_bound(old(self).spec_head() as int, len as int);
            assert(bytes@.take(0) =~= Seq::<u8>::empty());
            assert(self.data@ =~= circ_write(
                old(self).spec_data(),
                old(self).spec_head() as int,
                bytes@.take(0),
            ));
        }
        let mut j: usize = 0;
        while j < bytes.len()
            invariant
                old(self).wf(),
                j <= bytes@.len(),
                bytes@.len() <= len,
                len == old(self).spec_data().len(),
                self.data@.len() == len,
                self.head == old(self).spec_head(),
                self.tail == old(self).spec_tail(),
                start == old(self).spec_head() as int % (len as int),
                self.data@ == circ_write(
                    old(self).spec_data(),
                    old(self).spec_head() as int,
                    bytes@.take(j as int),
                ),
            decreases bytes@.len() - j,
        {
            let idx: usize = (start + j) % len;
            let ghost h = old(self).spec_head() as int;
            proof {
                lemma_mod_bound((start + j) as int, len as int);
                lemma_mod_twice(h, len as int);
                lemma_add_mod_noop(h, j as int, len as int);
                lemma_add_mod_noop(h % (len as int), j as int, len as int);
                vstd::arithmetic::div_mod::lemma_small_mod(j as nat, len as nat);
                assert(idx == (h + j) % (len as int));
                lemma_circ_write_step(old(self).spec_data(), h, bytes@, j as int);
            }
            let b = bytes[j];
            self.data.set(idx, b);
            j += 1;
        }
        proof {
            assert(bytes@.take(bytes@.len() as int) =~= bytes@);
        }
        self.head = self.head + (bytes.len() as u64);
    }

    /// Get an iterator over the records that the producer has committed to
    /// the ring.
    ///
    /// The iterator captures the producer's cursor at the time of the call:
    /// records committed later are not visible to it.  It does not advance
    /// the consumed cursor; that takes an explicit call to `advance`.
    pub fn events(&self) -> (it: RingBufferIter)
        requires
            self.wf(),
        ensures
            it.wf(),
            it.spec_records() == self.spec_records(),
            it.spec_bytes_read() == 0,
    {
        let len = self.data.len();
        let pos: usize = (self.tail % (len as u64)) as usize;
        let avail: usize = ((self.head - self.tail) % (len as u64)) as usize;
        proof {
            lemma_mod_bound(self.spec_tail() as int, len as int);
            lemma_mod_bound(self.spec_head() - self.spec_tail(), len as int);
            lemma_records_from_mod(self.spec_data(), self.spec_tail() as int, self.spec_avail());
        }
        RingBufferIter { data: copy_bytes(&self.data), pos, avail, bytes_read: 0 }
    }

    /// Total number of bytes consumed since creation.
    ///
    /// This is the value the platform glue mirrors into the control page's
    /// `data_tail` field after each `advance`.
    pub fn total_bytes_read(&self) -> (r: u64)
        ensures
            r == self.spec_tail(),
    {
        self.tail
    }

    /// Checks whether there are pending events.
    ///
    /// Returns `true` if there are pending events.  Subsequent calls to
    /// `events_pending` and `events` are not guaranteed to perform an atomic
    /// check: the producer can commit records between the calls.
    pub fn events_pending(&self) -> (r: bool)
        requires
            self.wf(),
        ensures
            r == (self.spec_head() as int % self.spec_size() != self.spec_tail() as int
                % self.spec_size()),
    {
        let len = self.data.len() as u64;
        self.head % len != self.tail % len
    }

    /// Mark `num` records (or, with `None`, every visible record) as
    /// consumed: the consumed cursor moves past their combined size, which
    /// the platform glue mirrors into the control page's `data_tail`.
    pub fn advance(&mut self, num: Option<usize>)
        requires
            old(self).wf(),
        ensures
            final(self).wf(),
            final(self).spec_data() == old(self).spec_data(),
            final(self).spec_head() == old(self).spec_head(),
            final(self).spec_tail() == old(self).spec_tail() + consumed_bytes(
                old(self).spec_records(),
                num,
            ),
    {
        let ghost recs = self.spec_records();
        let mut it = self.events();
        proof {
            lemma_records_total_bytes_nonneg(recs);
            assert(recs.skip(0) =~= recs);
            assert(recs.take(0) =~= Seq::<RawRecordModel>::empty());
        }
        match num {
            Some(n) => {
                let mut k: usize = 0;
                let mut done = false;
                while k < n && !done
                    invariant
                        it.wf(),
                        k <= n,
                        k as int <= recs.len(),
                        it.spec_records() =~= recs.skip(k as int),
                        it.spec_bytes_read() == records_total_bytes(recs.take(k as int)),
                        it.spec_bytes_read() + records_total_bytes(it.spec_records())
                            == records_total_bytes(recs),
                        done ==> k as int == recs.len(),
                    decreases n - k + (if done {
                        0int
                    } else {
                        1
                    }),
                {
                    let ghost before = it.spec_records();
                    match it.next() {
                        Some(_) => {
                            proof {
                                lemma_total_take_succ(recs, k as int);
                                assert(before.drop_first() =~= recs.skip(k as int + 1));
                            }
                            k += 1;
                        },
                        None => {
                            proof {
                                assert(recs.skip(k as int).len() == 0);
                            }
                            done = true;
                        },
                    }
                }
                proof {
                    lemma_consumed_is_bytes_read(recs, num, k as int, it.spec_bytes_read());
                    lemma_records_total_bytes_nonneg(it.spec_records());
                    assert(it.spec_bytes_read() <= records_total_bytes(recs));
                }
            },
            None => {
                let mut done = false;
                let ghost mut k: int = 0;
                while !done
                    invariant
                        it.wf(),
                        0 <= k <= recs.len(),
                        it.spec_records() =~= recs.skip(k),
                        it.spec_bytes_read() == records_total_bytes(recs.take(k)),
                        it.spec_bytes_read() + records_total_bytes(it.spec_records())
                            == records_total_bytes(recs),
                        done ==> k == recs.len(),
                    decreases recs.len() - k + (if done {
                        0int
                    } else {
                        1
                    }),
                {
                    let ghost before = it.spec_records();
                    match it.next() {
                        Some(_) => {
                            proof {
                                lemma_total_take_succ(recs, k);
                                assert(before.drop_first() =~= recs.skip(k + 1));
                                k = k + 1;
                            }
                        },
                        None => {
                            proof {
                                assert(recs.skip(k).len() == 0);
                            }
                            done = true;
                        },
                    }
                }
                proof {
                    lemma_take_of_all(recs, k);
                    lemma_records_total_bytes_nonneg(it.spec_records());
                    assert(it.spec_bytes_read() == consumed_bytes(recs, num));
                    assert(it.spec_bytes_read() <= records_total_bytes(recs));
                }
            },
        }
        proof {
            lemma_consumed_le_avail(self.spec_data(), self.spec_tail() as int, self.spec_avail());
            lemma_mod_decreases(
                (self.spec_head() - self.spec_tail()) as nat,
                self.spec_data().len(),
            );
        }
        self.tail = self.tail + it.bytes_read;
    }
}

/// How many bytes `advance` moves the consumed cursor: the combined size of
/// the first `num` visible records, or of all of them when `num` is `None`.
pub open spec fn consumed_bytes(recs: Seq<RawRecordModel>, num: Option<usize>) -> int {
    match num {
        Option::Some(n) => {
            if n <= recs.len() {
                records_total_bytes(recs.take(n as int))
            } else {
                records_total_bytes(recs)
            }
        },
        Option::None => records_total_bytes(recs),
    }
}

/// Record sizes are non-negative, so so is their sum.
pub proof fn lemma_records_total_bytes_nonneg(recs: Seq<RawRecordModel>)
    ensures
        records_total_bytes(recs) >= 0,
    decreases recs.len(),
{
    if recs.len() > 0 {
        lemma_records_total_bytes_nonneg(recs.drop_first());
    }
}

/// Taking a whole sequence changes nothing.
proof fn lemma_take_of_all(recs: Seq<RawRecordModel>, k: int)
    requires
        k == recs.len(),
    ensures
        records_total_bytes(recs.take(k)) == records_total_bytes(recs),
{
    assert(recs.take(k) =~= recs);
}

/// Extending a prefix by one record adds that record's size to the prefix's
/// total.
proof fn lemma_total_take_succ(recs: Seq<RawRecordModel>, k: int)
    requires
        0 <= k < recs.len(),
    ensures
        records_total_bytes(recs.take(k + 1)) == records_total_bytes(recs.take(k)) + recs[k].size,
    decreases k,
{
    if k == 0 {
        assert(recs.take(1).drop_first() =~= Seq::<RawRecordModel>::empty());
        assert(recs.take(0) =~= Seq::<RawRecordModel>::empty());
    } else {
        lemma_total_take_succ(recs.drop_first(), k - 1);
        assert(recs.take(k + 1).drop_first() =~= recs.drop_first().take(k));
        assert(recs.take(k).drop_first() =~= recs.drop_first().take(k - 1));
        assert(recs.take(k + 1)[0] == recs[0]);
        assert(recs.take(k)[0] == recs[0]);
    }
}

/// Ties the cursor distance walked by an iterator to `consumed_bytes`.
proof fn lemma_consumed_is_bytes_read(
    recs: Seq<RawRecordModel>,
    num: Option<usize>,
    k: int,
    bytes_read: int,
)
    requires
        num matches Option::Some(n) && 0 <= k <= recs.len() && (k == n || (k < n && k
            == recs.len())),
        bytes_read == records_total_bytes(recs.take(k)),
    ensures
        bytes_read == consumed_bytes(recs, num),
{
    let n = num->Some_0;
    if k == recs.len() {
        lemma_take_of_all(recs, k);
        if n <= recs.len() {
            assert(n == k);
        }
    }
}

/// The records parsed from `avail` committed bytes never claim more than
/// `avail` bytes in total.
pub proof fn lemma_consumed_le_avail(data: Seq<u8>, pos: int, avail: int)
    requires
        avail >= 0,
    ensures
        records_total_bytes(records_from(data, pos, avail)) <= avail,
    decreases avail,
{
    if data.len() == 0 || avail <= 0 {
    } else {
        let sz = header_size(data, pos);
        if valid_record_size(sz, avail) {
            lemma_consumed_le_avail(data, pos + sz, avail - sz);
            assert(records_from(data, pos, avail).drop_first() =~= records_from(
                data,
                pos + sz,
                avail - sz,
            ));
        }
    }
}

/// Whether `enc` is the byte encoding of one acceptable record: header plus
/// payload, 8-byte aligned, within the scratch capacity, with the header's
/// size field equal to the encoding's length.
pub open spec fn encodes_record(enc: Seq<u8>) -> bool {
    &&& 8 <= enc.len() <= 256
    &&& enc.len() % 8 == 0
    &&& spec_u16_from_le_bytes(enc.subrange(6, 8)) == enc.len()
}

/// The record model a byte encoding denotes.
pub open spec fn record_of_bytes(enc: Seq<u8>) -> RawRecordModel {
    RawRecordModel {
        type_: spec_u32_from_le_bytes(enc.subrange(0, 4)),
        misc: spec_u16_from_le_bytes(enc.subrange(4, 6)),
        size: enc.len() as u16,
        data: enc.subrange(8, enc.len() as int),
    }
}

/// Combined length of a sequence of encodings.
pub open spec fn encs_total(encs: Seq<Seq<u8>>) -> int
    decreases encs.len(),
{
    if encs.len() == 0 {
        0
    } else {
        encs[0].len() + encs_total(encs.drop_first())
    }
}

/// The region after the encodings are written one after another from
/// unwrapped position `pos`, as successive `produce` calls commit them.
pub open spec fn write_encs(data: Seq<u8>, pos: int, encs: Seq<Seq<u8>>) -> Seq<u8>
    decreases encs.len(),
{
    if encs.len() == 0 {
        data
    } else {
        write_encs(circ_write(data, pos, encs[0]), pos + encs[0].len(), encs.drop_first())
    }
}

/// Encoding lengths are non-negative, so so is their sum.
proof fn lemma_encs_total_nonneg(encs: Seq<Seq<u8>>)
    ensures
        encs_total(encs) >= 0,
    decreases encs.len(),
{
    if encs.len() > 0 {
        lemma_encs_total_nonneg(encs.drop_first());
    }
}

/// A circular write keeps the region's length.
proof fn lemma_circ_write_len(data: Seq<u8>, w: int, bs: Seq<u8>)
    ensures
        circ_write(data, w, bs).len() == data.len(),
{
}

/// Writing encodings keeps the region's length.
proof fn lemma_write_encs_len(data: Seq<u8>, pos: int, encs: Seq<Seq<u8>>)
    ensures
        write_encs(data, pos, encs).len() == data.len(),
    decreases encs.len(),
{
    if encs.len() > 0 {
        lemma_write_encs_len(circ_write(data, pos, encs[0]), pos + encs[0].len(),
            encs.drop_first());
    }
}

/// A byte whose circular distance from the write position is at least the
/// write's length is untouched by the write.
proof fn lemma_circ_write_outside(data: Seq<u8>, w: int, bs: Seq<u8>, q: int)
    requires
        data.len() > 0,
        bs.len() <= data.len(),
        (q - w) % (data.len() as int) >= bs.len(),
    ensures
        circ_index(circ_write(data, w, bs), q) == circ_index(data, q),
{
    let len = data.len() as int;
    let i = q % len;
    lemma_mod_bound(q, len);
    vstd::arithmetic::div_mod::lemma_sub_mod_noop(q, w, len);
    vstd::arithmetic::div_mod::lemma_sub_mod_noop(i, w, len);
    lemma_mod_twice(q, len);
    assert((i - w) % len == (q - w) % len);
}

/// A byte within the write's circular window takes the written value.
proof fn lemma_circ_write_inside(data: Seq<u8>, w: int, bs: Seq<u8>, o: int)
    requires
        data.len() > 0,
        0 <= o < bs.len() <= data.len(),
    ensures
        circ_index(circ_write(data, w, bs), w + o) == bs[o],
{
    let len = data.len() as int;
    let i = (w + o) % len;
    lemma_mod_bound(w + o, len);
    vstd::arithmetic::div_mod::lemma_sub_mod_noop(w + o, w, len);
    vstd::arithmetic::div_mod::lemma_sub_mod_noop(i, w, len);
    lemma_mod_twice(w + o, len);
    vstd::arithmetic::div_mod::lemma_small_mod(o as nat, len as nat);
    assert((i - w) % len == o);
}

/// A byte whose circular distance from the write position is at least the
/// combined length of the encodings is untouched by writing them all.
proof fn lemma_write_encs_outside(data: Seq<u8>, p: int, encs: Seq<Seq<u8>>, q: int)
    requires
        data.len() > 0,
        encs_total(encs) <= data.len(),
        (q - p) % (data.len() as int) >= encs_total(encs),
        forall|i: int| 0 <= i < encs.len() ==> (#[trigger] encs[i]).len() >= 0,
    ensures
        circ_index(write_encs(data, p, encs), q) == circ_index(data, q),
    decreases encs.len(),
{
    let len = data.len() as int;
    if encs.len() > 0 {
        let e0 = encs[0];
        let l0 = e0.len() as int;
        let rest = encs.drop_first();
        lemma_encs_total_nonneg(rest);
        let o = (q - p) % len;
        lemma_mod_bound(q - p, len);
        lemma_circ_write_outside(data, p, e0, q);
        let d1 = circ_write(data, p, e0);
        lemma_circ_write_len(data, p, e0);
        vstd::arithmetic::div_mod::lemma_sub_mod_noop_right(q - p, l0, len);
        assert((q - p - l0) % len == (o - l0) % len) by {
            vstd::arithmetic::div_mod::lemma_sub_mod_noop(q - p, l0, len);
            vstd::arithmetic::div_mod::lemma_sub_mod_noop(o, l0, len);
            lemma_mod_twice(q - p, len);
        }
        vstd::arithmetic::div_mod::lemma_small_mod((o - l0) as nat, len as nat);
        assert((q - (p + l0)) % len == o - l0);
        lemma_write_encs_outside(d1, p + l0, rest, q);
    }
}

/// The bytes of the first encoding as they stand after the whole write.
proof fn lemma_first_record_bytes(data: Seq<u8>, pos: int, encs: Seq<Seq<u8>>, o: int)
    requires
        data.len() > 0,
        pos >= 0,
        encs.len() > 0,
        encs_total(encs) <= data.len(),
        0 <= o < encs[0].len(),
        forall|i: int| 0 <= i < encs.len() ==> (#[trigger] encs[i]).len() >= 0,
    ensures
        circ_index(write_encs(data, pos, encs), pos + o) == encs[0][o],
    decreases 0int,
{
    let len = data.len() as int;
    let e0 = encs[0];
    let l0 = e0.len() as int;
    let rest = encs.drop_first();
    lemma_encs_total_nonneg(rest);
    let d1 = circ_write(data, pos, e0);
    lemma_circ_write_len(data, pos, e0);
    lemma_circ_write_inside(data, pos, e0, o);
    let q = pos + o;
    assert((q - (pos + l0)) % len == o - l0 + len) by {
        vstd::arithmetic::div_mod::lemma_fundamental_div_mod_converse_mod(
            o - l0,
            len,
            -1,
            o - l0 + len,
        );
    }
    lemma_write_encs_outside(d1, pos + l0, rest, q);
}

/// Record encodings written into the ring are read back exactly: after the
/// producer commits a sequence of well-formed record encodings, the records
/// the consumer parses from those bytes are precisely the encodings'
/// records, in write order, and their combined size equals the number of
/// bytes committed.
pub proof fn lemma_ring_roundtrip(data: Seq<u8>, pos: int, encs: Seq<Seq<u8>>)
    requires
        data.len() > 0,
        pos >= 0,
        forall|i: int| 0 <= i < encs.len() ==> encodes_record(#[trigger] encs[i]),
        encs_total(encs) <= data.len(),
    ensures
        records_from(write_encs(data, pos, encs), pos, encs_total(encs)) =~= encs.map_values(
            |e: Seq<u8>| record_of_bytes(e),
        ),
        records_total_bytes(
            records_from(write_encs(data, pos, encs), pos, encs_total(encs)),
        ) == encs_total(encs),
    decreases encs.len(),
{
    let len = data.len() as int;
    let d = write_encs(data, pos, encs);
    lemma_write_encs_len(data, pos, encs);
    if encs.len() == 0 {
        assert(records_from(d, pos, 0) =~= encs.map_values(|e: Seq<u8>| record_of_bytes(e)));
    } else {
        let e0 = encs[0];
        let l0 = e0.len() as int;
        let rest = encs.drop_first();
        lemma_encs_total_nonneg(rest);
        let t = encs_total(encs);
        let d1 = circ_write(data, pos, e0);
        lemma_circ_write_len(data, pos, e0);
        assert forall|o: int| 0 <= o < l0 implies #[trigger] circ_index(d, pos + o) == e0[o] by {
            lemma_first_record_bytes(data, pos, encs, o);
        }
        assert(circ_read(d, pos + 6, 2) =~= e0.subrange(6, 8)) by {
            assert forall|k: int| 0 <= k < 2 implies circ_read(d, pos + 6, 2)[k] == e0.subrange(
                6,
                8,
            )[k] by {
                lemma_first_record_bytes(data, pos, encs, 6 + k);
                assert(circ_index(d, pos + (6 + k)) == e0[6 + k]);
            }
        }
        assert(header_size(d, pos) == l0);
        assert(valid_record_size(header_size(d, pos), t));
        assert(circ_read(d, pos, 4) =~= e0.subrange(0, 4));
        assert(circ_read(d, pos + 4, 2) =~= e0.subrange(4, 6)) by {
            assert forall|k: int| 0 <= k < 2 implies circ_read(d, pos + 4, 2)[k] == e0.subrange(
                4,
                6,
            )[k] by {
                lemma_first_record_bytes(data, pos, encs, 4 + k);
                assert(circ_index(d, pos + (4 + k)) == e0[4 + k]);
            }
        }
        assert(circ_read(d, pos + 8, l0 - 8) =~= e0.subrange(8, l0)) by {
            assert forall|k: int| 0 <= k < l0 - 8 implies circ_read(d, pos + 8, l0 - 8)[k]
                == e0.subrange(8, l0)[k] by {
                lemma_first_record_bytes(data, pos, encs, 8 + k);
                assert(circ_index(d, pos + (8 + k)) == e0[8 + k]);
            }
        }
        assert(record_at(d, pos) == record_of_bytes(e0));
        lemma_ring_roundtrip(d1, pos + l0, rest);
        assert(d == write_encs(d1, pos + l0, rest));
        assert(records_from(d, pos + l0, t - l0) =~= rest.map_values(
            |e: Seq<u8>| record_of_bytes(e),
        ));
        let whole = records_from(d, pos, t);
        assert(whole == seq![record_at(d, pos)] + records_from(d, pos + l0, t - l0));
        assert forall|k: int| 0 <= k < whole.len() implies whole[k] == encs.map_values(
            |e: Seq<u8>| record_of_bytes(e),
        )[k] by {
            if k > 0 {
                assert(whole[k] == records_from(d, pos + l0, t - l0)[k - 1]);
                assert(rest.map_values(|e: Seq<u8>| record_of_bytes(e))[k - 1]
                    == record_of_bytes(rest[k - 1]));
                assert(rest[k - 1] == encs[k]);
            }
        }
        assert(whole.drop_first() =~= records_from(d, pos + l0, t - l0));
    }
}

/// A record's bytes alone decide its decoded value: two positions holding
/// the same record bytes yield the same record model, whether or not either
/// span crosses its region's wraparound boundary.
pub proof fn lemma_record_wrap_independent(d1: Seq<u8>, p1: int, d2: Seq<u8>, p2: int)
    requires
        d1.len() > 0,
        d2.len() > 0,
        circ_read(d1, p1, 8) == circ_read(d2, p2, 8),
        circ_read(d1, p1 + 8, header_size(d1, p1) - 8) == circ_read(
            d2,
            p2 + 8,
            header_size(d2, p2) - 8,
        ),
    ensures
        record_at(d1, p1) == record_at(d2, p2),
{
    assert(circ_read(d1, p1, 4) =~= circ_read(d1, p1, 8).subrange(0, 4));
    assert(circ_read(d2, p2, 4) =~= circ_read(d2, p2, 8).subrange(0, 4));
    assert(circ_read(d1, p1 + 4, 2) =~= circ_read(d1, p1, 8).subrange(4, 6));
    assert(circ_read(d2, p2 + 4, 2) =~= circ_read(d2, p2, 8).subrange(4, 6));
    assert(circ_read(d1, p1 + 6, 2) =~= circ_read(d1, p1, 8).subrange(6, 8));
    assert(circ_read(d2, p2 + 6, 2) =~= circ_read(d2, p2, 8).subrange(6, 8));
}

/// A well-formed stream's records consume exactly the committed bytes.
pub proof fn lemma_wf_stream_total(data: Seq<u8>, pos: int, avail: int)
    requires
        wf_stream(data, pos, avail),
    ensures
        records_total_bytes(records_from(data, pos, avail)) == avail,
    decreases avail,
{
    if avail > 0 {
        let sz = header_size(data, pos);
        lemma_wf_stream_total(data, pos + sz, avail - sz);
        assert(records_from(data, pos, avail).drop_first() =~= records_from(
            data,
            pos + sz,
            avail - sz,
        ));
    }
}

/// Draining every visible record leaves nothing pending: when the visible
/// bytes parse exactly into records, moving the consumed cursor past all of
/// them aligns it with the producer's cursor, and a second drain consumes
/// nothing more.
pub proof fn lemma_drain_clears_pending(data: Seq<u8>, head: u64, tail: u64)
    requires
        data.len() > 0,
        tail <= head,
        head - tail <= data.len(),
        wf_stream(data, tail as int, (head - tail) % (data.len() as int)),
    ensures
        ({
            let len = data.len() as int;
            let consumed = consumed_bytes(
                records_from(data, tail as int, (head - tail) % len),
                Option::None,
            );
            &&& consumed == (head - tail) % len
            &&& (tail + consumed) % len == head as int % len
            &&& consumed_bytes(
                records_from(data, tail + consumed, (head - (tail + consumed)) % len),
                Option::None,
            ) == 0
        }),
{
    let len = data.len() as int;
    let avail = (head - tail) % len;
    lemma_wf_stream_total(data, tail as int, avail);
    let consumed = consumed_bytes(records_from(data, tail as int, avail), Option::None);
    assert(consumed == avail);
    if head - tail < len {
        vstd::arithmetic::div_mod::lemma_small_mod((head - tail) as nat, len as nat);
        assert(consumed == head - tail);
        assert((tail + consumed) % len == head as int % len);
        assert((head - (tail + consumed)) % len == 0) by {
            vstd::arithmetic::div_mod::lemma_mod_self_0(len);
            vstd::arithmetic::div_mod::lemma_small_mod(0nat, len as nat);
        }
    } else {
        assert(head - tail == len);
        vstd::arithmetic::div_mod::lemma_mod_self_0(len);
        assert(avail == 0);
        assert(consumed == 0);
        assert((tail + consumed) % len == head as int % len) by {
            vstd::arithmetic::div_mod::lemma_mod_add_multiples_vanish(tail as int, len);
        }
        assert((head - (tail + consumed)) % len == 0);
    }
    assert(records_from(data, tail + consumed, 0) =~= Seq::<RawRecordModel>::empty());
}

/// Check whether `n` is a positive power of two.
fn check_power_of_two(n: usize) -> (r: bool)
    ensures
        r == is_power_of_two(n as int),
{
    if n == 0 {
        return false;
    }
    let mut m: usize = n;
    while m % 2 == 0
        invariant
            m >= 1,
            is_power_of_two(n as int) == is_power_of_two(m as int),
        decreases m,
    {
        m = m / 2;
    }
    m == 1
}

/// Copy a byte vector.
fn copy_bytes(src: &Vec<u8>) -> (r: Vec<u8>)
    ensures
        r@ == src@,
{
    let mut out: Vec<u8> = Vec::new();
    let mut i: usize = 0;
    while i < src.len()
        invariant
            i <= src@.len(),
            out@ =~= src@.take(i as int),
        decreases src@.len() - i,
    {
        out.push(src[i]);
        i += 1;
    }
    proof {
        assert(src@.take(src@.len() as int) =~= src@);
    }
    out
}

/// Read `n` bytes circularly from `pos`.
fn circ_read_exec(data: &Vec<u8>, pos: usize, n: usize) -> (r: Vec<u8>)
    requires
        data@.len() > 0,
        data@.len() <= 0x1000_0000,
        pos < data@.len(),
        n <= data@.len(),
    ensures
        r@ == circ_read(data@, pos as int, n as int),
{
    let len = data.len();
    let mut out: Vec<u8> = Vec::new();
    let mut i: usize = 0;
    while i < n
        invariant
            i <= n,
            n <= data@.len(),
            data@.len() <= 0x1000_0000,
            pos < data@.len(),
            len == data@.len(),
            out@ =~= circ_read(data@, pos as int, i as int),
        decreases n - i,
    {
        let idx = (pos + i) % len;
        proof {
            lemma_mod_bound((pos + i) as int, len as int);
            assert(out@.push(data@[idx as int]) =~= circ_read(data@, pos as int, i + 1));
        }
        out.push(data[idx]);
        i += 1;
    }
    out
}

/// Iterator over the records committed to a ring at the time `events` was
/// called.
///
/// The iterator owns a snapshot of the region's bytes; a record that
/// straddles the wraparound boundary is reassembled before it is returned.
#[derive(Debug)]
pub struct RingBufferIter {
    /// Snapshot of the circular data region.
    data: Vec<u8>,
    /// Wrapped position of the next unread record.
    pos: usize,
    /// Bytes still to be read before the producer cursor captured at
    /// creation is reached.
    avail: usize,
    /// Total bytes of the records returned so far.
    bytes_read: u64,
}

impl RingBufferIter {
    /// Well-formedness: the position is inside the region and no more than a
    /// full region of bytes remains.
    pub closed spec fn wf(&self) -> bool {
        &&& self.data@.len() > 0
        &&& self.data@.len() % 8 == 0
        &&& self.data@.len() <= 0x1000_0000
        &&& self.pos < self.data@.len()
        &&& self.avail <= self.data@.len()
        &&& self.bytes_read + self.avail <= 0x1000_0000
    }

    /// The snapshot bytes.
    pub closed spec fn spec_data(&self) -> Seq<u8> {
        self.data@
    }

    /// Total bytes of the records returned so far.
    pub closed spec fn spec_bytes_read(&self) -> int {
        self.bytes_read as int
    }

    /// The records this iterator has yet to return.
    pub closed spec fn spec_records(&self) -> Seq<RawRecordModel> {
        records_from(self.data@, self.pos as int, self.avail as int)
    }

    /// Return the next committed record, or `None` once the producer cursor
    /// captured at creation has been reached or a record with an
    /// unacceptable declared size stops the scan.
    pub fn next(&mut self) -> (r: Option<RawRecord>)
        requires
            old(self).wf(),
        ensures
            final(self).wf(),
            final(self).spec_data() == old(self).spec_data(),
            old(self).spec_records().len() == 0 ==> r is None && *final(self) == *old(self),
            old(self).spec_records().len() > 0 ==> {
                &&& r matches Some(rec)
                &&& rec@ == old(self).spec_records()[0]
                &&& final(self).spec_records() =~= old(self).spec_records().drop_first()
                &&& final(self).spec_bytes_read() == old(self).spec_bytes_read() + rec@.size
            },
    {
        if self.avail == 0 {
            return None;
        }
        let len = self.data.len();
        let header_bytes = circ_read_exec(&self.data, self.pos, 8);
        let type_ = u32_from_le_bytes(vstd::slice::slice_subrange(
            header_bytes.as_slice(),
            0,
            4,
        ));
        let misc = u16_from_le_bytes(vstd::slice::slice_subrange(header_bytes.as_slice(), 4, 6));
        let size = u16_from_le_bytes(vstd::slice::slice_subrange(header_bytes.as_slice(), 6, 8));
        proof {
            let d = self.data@;
            let p = self.pos as int;
            assert(circ_read(d, p, 8).subrange(0, 4) =~= circ_read(d, p, 4));
            assert(circ_read(d, p, 8).subrange(4, 6) =~= circ_read(d, p + 4, 2));
            assert(circ_read(d, p, 8).subrange(6, 8) =~= circ_read(d, p + 6, 2));
        }
        if size < 8 || size % 8 != 0 || size > 256 || (size as usize) > self.avail {
            return None;
        }
        let payload = circ_read_exec(&self.data, (self.pos + 8) % len, (size - 8) as usize);
        proof {
            lemma_mod_bound((self.pos + 8) as int, len as int);
            lemma_circ_read_mod(self.data@, self.pos + 8, size - 8);
            lemma_records_from_mod(self.data@, self.pos + size, (self.avail - size) as int);
            assert(records_from(
                self.data@,
                self.pos as int,
                self.avail as int,
            ).drop_first() =~= records_from(
                self.data@,
                self.pos + size,
                self.avail - size,
            ));
        }
        self.pos = (self.pos + size as usize) % len;
        self.avail = self.avail - size as usize;
        self.bytes_read = self.bytes_read + size as u64;
        Some(RawRecord { header: RecordHeader { type_, misc, size }, data: payload })
    }
}

} // verus!
