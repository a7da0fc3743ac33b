//! Hardware-event and derived-metric descriptions parsed from the flat
//! key-value records of the event database.
//!
//! A `RawEvent` is one record of that database; `HPCEvent` is a directly
//! programmable counter event, `MetricEvent` a derived metric with a parsed
//! formula, and `EventWrapper` tells the two apart by which name key the
//! record holds.

use vstd::prelude::*;
use vstd::string::StrSliceExecFns;
use vstd::string::StringExecFns;

use crate::errors::Error;
use crate::metrics::ExprModel;
use crate::metrics::MetricExpr;
use crate::metrics::spec_parse;

verus! {

/// One record of the event database: a flat association of field names with
/// their texts.  A lookup takes the first pair with the sought key.
#[derive(Debug)]
pub struct RawEvent {
    /// Key-value pairs of the record.
    entries: Vec<(String, String)>,
}

impl View for RawEvent {
    type V = Seq<(Seq<char>, Seq<char>)>;

    closed spec fn view(&self) -> Seq<(Seq<char>, Seq<char>)> {
        self.entries@.map_values(|p: (String, String)| (p.0@, p.1@))
    }
}

/// The text of the first entry keyed `key`, if any.
pub open spec fn spec_get(m: Seq<(Seq<char>, Seq<char>)>, key: Seq<char>) -> Option<Seq<char>>
    decreases m.len(),
{
    if m.len() == 0 {
        Option::None
    } else if m[0].0 == key {
        Option::Some(m[0].1)
    } else {
        spec_get(m.drop_first(), key)
    }
}

impl RawEvent {
    /// An empty record.
    pub fn new() -> (r: RawEvent)
        ensures
            r@ =~= Seq::<(Seq<char>, Seq<char>)>::empty(),
    {
        RawEvent { entries: Vec::new() }
    }

    /// Append a field; an earlier field of the same key keeps priority.
    pub fn insert(&mut self, key: &str, value: &str)
        ensures
            final(self)@ =~= old(self)@.push((key@, value@)),
    {
        let ghost before = self.entries@;
        self.entries.push((String::from_str(key), String::from_str(value)));
        proof {
            assert forall|k: int| 0 <= k < self.entries@.len() implies (#[trigger] self@[k]) == (
            before.map_values(|p: (String, String)| (p.0@, p.1@)).push((key@, value@)))[k] by {
                if k < before.len() {
                    assert(self.entries@[k] == before[k]);
                }
            }
        }
    }

    /// The text of the field keyed `key`, if present.
    pub fn get(&self, key: &str) -> (r: Option<String>)
        ensures
            match r {
                Option::Some(v) => spec_get(self@, key@) == Option::Some(v@),
                Option::None => spec_get(self@, key@) is None,
            },
    {
        let mut k: usize = 0;
        let n = self.entries.len();
        proof {
            assert(self@.skip(0) =~= self@);
        }
        while k < n
            invariant
                k <= n,
                n == self.entries@.len(),
                n == self@.len(),
                spec_get(self@, key@) == spec_get(self@.skip(k as int), key@),
            decreases n - k,
        {
            proof {
                assert(self@[k as int] == (self.entries@[k as int].0@, self.entries@[k as int].1@));
                assert(self@.skip(k as int)[0] == self@[k as int]);
            }
            if str_eq(self.entries[k].0.as_str(), key) {
                return Some(self.entries[k].1.clone());
            }
            proof {
                assert(self@.skip(k as int).drop_first() =~= self@.skip(k as int + 1));
            }
            k += 1;
        }
        proof {
            assert(self@.skip(n as int).len() == 0);
        }
        None
    }

    /// Whether the record holds a field keyed `key`.
    pub fn contains_key(&self, key: &str) -> (r: bool)
        ensures
            r == (spec_get(self@, key@) is Some),
    {
        match self.get(key) {
            Some(_) => true,
            None => false,
        }
    }
}

/// Character-for-character string equality.
fn str_eq(a: &str, b: &str) -> (r: bool)
    ensures
        r == (a@ == b@),
{
    let na = a.unicode_len();
    let nb = b.unicode_len();
    if na != nb {
        proof {
            assert(a@.len() != b@.len());
        }
        return false;
    }
    let mut i: usize = 0;
    while i < na
        invariant
            i <= na,
            na == a@.len(),
            na == b@.len(),
            forall|k: int| 0 <= k < i ==> a@[k] == b@[k],
        decreases na - i,
    {
        if a.get_char(i) != b.get_char(i) {
            return false;
        }
        i += 1;
    }
    proof {
        assert(a@ =~= b@);
    }
    true
}

/// The value of a hexadecimal digit character, if it is one.
pub open spec fn hex_val(c: char) -> Option<int> {
    if '0' <= c && c <= '9' {
        Option::Some(c as int - '0' as int)
    } else if 'a' <= c && c <= 'f' {
        Option::Some(c as int - 'a' as int + 10)
    } else if 'A' <= c && c <= 'F' {
        Option::Some(c as int - 'A' as int + 10)
    } else {
        Option::None
    }
}

/// Fold hexadecimal digits from position `i` onto `acc`; fails on a
/// non-digit or where the value would leave the unsigned 64-bit range.
pub open spec fn hex_fold(s: Seq<char>, i: int, acc: int) -> Option<u64>
    decreases s.len() - i,
{
    if i < 0 || i > s.len() {
        Option::None
    } else if i == s.len() {
        Option::Some(acc as u64)
    } else {
        match hex_val(s[i]) {
            Option::None => Option::None,
            Option::Some(d) => {
                let acc2 = acc * 16 + d;
                if acc2 > u64::MAX {
                    Option::None
                } else {
                    hex_fold(s, i + 1, acc2)
                }
            },
        }
    }
}

/// The unsigned value a hexadecimal text denotes: at least one digit, all
/// digits, within 64 bits.
pub open spec fn spec_parse_hex(s: Seq<char>) -> Option<u64> {
    if s.len() == 0 {
        Option::None
    } else {
        hex_fold(s, 0, 0)
    }
}

/// Fold decimal digits from position `i` onto `acc`; fails on a non-digit
/// or where the value would leave the unsigned 64-bit range.
pub open spec fn dec_fold(s: Seq<char>, i: int, acc: int) -> Option<u64>
    decreases s.len() - i,
{
    if i < 0 || i > s.len() {
        Option::None
    } else if i == s.len() {
        Option::Some(acc as u64)
    } else if !crate::metrics::is_digit(s[i]) {
        Option::None
    } else {
        let acc2 = acc * 10 + crate::metrics::digit_val(s[i]);
        if acc2 > u64::MAX {
            Option::None
        } else {
            dec_fold(s, i + 1, acc2)
        }
    }
}

/// The unsigned value a decimal text denotes.
pub open spec fn spec_parse_dec(s: Seq<char>) -> Option<u64> {
    if s.len() == 0 {
        Option::None
    } else {
        dec_fold(s, 0, 0)
    }
}

/// The signed 32-bit value a decimal text denotes, with an optional leading
/// minus sign.
pub open spec fn spec_parse_i32(s: Seq<char>) -> Option<i32> {
    if s.len() > 0 && s[0] == '-' {
        match spec_parse_dec(s.drop_first()) {
            Option::None => Option::None,
            Option::Some(v) => {
                if v <= 0x8000_0000 {
                    Option::Some((-(v as int)) as i32)
                } else {
                    Option::None
                }
            },
        }
    } else {
        match spec_parse_dec(s) {
            Option::None => Option::None,
            Option::Some(v) => {
                if v <= 0x7fff_ffff {
                    Option::Some(v as i32)
                } else {
                    Option::None
                }
            },
        }
    }
}

/// The prefix of `s` before its first comma, or all of `s`.
pub open spec fn first_comma_seg(s: Seq<char>) -> Seq<char>
    decreases s.len(),
{
    if s.len() == 0 {
        Seq::empty()
    } else if s[0] == ',' {
        Seq::empty()
    } else {
        seq![s[0]] + first_comma_seg(s.drop_first())
    }
}

/// Parse a hexadecimal text.
fn parse_hex(s: &str) -> (r: Option<u64>)
    ensures
        r == spec_parse_hex(s@),
{
    let n = s.unicode_len();
    if n == 0 {
        return None;
    }
    let mut acc: u64 = 0;
    let mut i: usize = 0;
    while i < n
        invariant
            i <= n,
            n == s@.len(),
            hex_fold(s@, 0, 0) == hex_fold(s@, i as int, acc as int),
        decreases n - i,
    {
        let c = s.get_char(i);
        let d: u64;
        if '0' <= c && c <= '9' {
            d = (((c as u32) - ('0' as u32)) as u64);
        } else if 'a' <= c && c <= 'f' {
            d = (((c as u32) - ('a' as u32)) as u64) + 10;
        } else if 'A' <= c && c <= 'F' {
            d = (((c as u32) - ('A' as u32)) as u64) + 10;
        } else {
            return None;
        }
        let m = match acc.checked_mul(16) {
            Some(m) => m,
            None => {
                return None;
            },
        };
        let a2 = match m.checked_add(d) {
            Some(a2) => a2,
            None => {
                return None;
            },
        };
        acc = a2;
        i += 1;
    }
    Some(acc)
}

/// Parse a decimal text to an unsigned 64-bit value.
fn parse_dec(s: &str) -> (r: Option<u64>)
    ensures
        r == spec_parse_dec(s@),
{
    let n = s.unicode_len();
    if n == 0 {
        return None;
    }
    let mut acc: u64 = 0;
    let mut i: usize = 0;
    while i < n
        invariant
            i <= n,
            n == s@.len(),
            dec_fold(s@, 0, 0) == dec_fold(s@, i as int, acc as int),
        decreases n - i,
    {
        let c = s.get_char(i);
        if !('0' <= c && c <= '9') {
            return None;
        }
        let d: u64 = ((c as u32) - ('0' as u32)) as u64;
        let m = match acc.checked_mul(10) {
            Some(m) => m,
            None => {
                return None;
            },
        };
        let a2 = match m.checked_add(d) {
            Some(a2) => a2,
            None => {
                return None;
            },
        };
        acc = a2;
        i += 1;
    }
    Some(acc)
}

/// Parse a decimal text, with an optional leading minus sign, to a signed
/// 32-bit value.
fn parse_i32(s: &str) -> (r: Option<i32>)
    ensures
        r == spec_parse_i32(s@),
{
    let n = s.unicode_len();
    if n > 0 && s.get_char(0) == '-' {
        let rest = s.substring_char(1, n);
        proof {
            assert(rest@ =~= s@.drop_first());
        }
        match parse_dec(rest) {
            None => None,
            Some(v) => {
                if v <= 0x8000_0000 {
                    Some((-(v as i64)) as i32)
                } else {
                    None
                }
            },
        }
    } else {
        proof {
            if s@.len() > 0 {
                assert(s@[0] != '-');
            }
        }
        match parse_dec(s) {
            None => None,
            Some(v) => {
                if v <= 0x7fff_ffff {
                    Some(v as i32)
                } else {
                    None
                }
            },
        }
    }
}

/// The prefix of `s` before its first comma.
fn first_comma_seg_exec(s: &str) -> (r: String)
    ensures
        r@ == first_comma_seg(s@),
{
    let n = s.unicode_len();
    let mut end: usize = 0;
    while end < n && s.get_char(end) != ','
        invariant
            end <= n,
            n == s@.len(),
            forall|k: int| 0 <= k < end ==> s@[k] != ',',
        decreases n - end,
    {
        end += 1;
    }
    let sub = s.substring_char(0, end);
    proof {
        lemma_first_comma_prefix(s@, end as int);
    }
    String::from_str(sub)
}

/// If every character before `end` is not a comma, and `end` is the length
/// or a comma, the comma-terminated prefix is exactly the text before
/// `end`.
proof fn lemma_first_comma_prefix(s: Seq<char>, end: int)
    requires
        0 <= end <= s.len(),
        forall|k: int| 0 <= k < end ==> s[k] != ',',
        end == s.len() || s[end] == ',',
    ensures
        first_comma_seg(s) == s.subrange(0, end),
    decreases s.len(),
{
    if s.len() == 0 {
        assert(first_comma_seg(s) =~= s.subrange(0, end));
    } else if end == 0 {
        assert(s[0] == ',');
        assert(first_comma_seg(s) =~= s.subrange(0, 0));
    } else {
        assert(s[0] != ',');
        lemma_first_comma_prefix(s.drop_first(), end - 1);
        assert(s.drop_first().subrange(0, end - 1) =~= s.subrange(1, end));
        assert(seq![s[0]] + s.subrange(1, end) =~= s.subrange(0, end));
    }
}

/// The characters of a text from position 2 on, as a string.
fn skip2(s: &String) -> (r: String)
    requires
        s@.len() >= 2,
    ensures
        r@ == s@.skip(2),
{
    let n = s.as_str().unicode_len();
    let sub = s.as_str().substring_char(2, n);
    proof {
        assert(sub@ =~= s@.skip(2));
    }
    String::from_str(sub)
}

/// The Linux PMU name a `Unit` field maps to, where a fixed mapping exists.
pub open spec fn spec_pmu_from_json(u: Seq<char>) -> Option<Seq<char>> {
    if u == "CBO"@ {
        Option::Some("uncore_cbox"@)
    } else if u == "NCU"@ {
        Option::Some("uncore_cbox_0"@)
    } else if u == "QPI LL"@ {
        Option::Some("uncore_qpi"@)
    } else if u == "SBO"@ {
        Option::Some("uncore_sbox"@)
    } else if u == "iMPH-U"@ {
        Option::Some("uncore_arb"@)
    } else if u == "CPU-M-CF"@ {
        Option::Some("cpum_cf"@)
    } else if u == "CPU-M-SF"@ {
        Option::Some("cpum_sf"@)
    } else if u == "UPI LL"@ {
        Option::Some("uncore_upi"@)
    } else if u == "hisi_sccl,ddrc"@ {
        Option::Some("hisi_sccl,ddrc"@)
    } else if u == "hisi_sccl,hha"@ {
        Option::Some("hisi_sccl,hha"@)
    } else if u == "hisi_sccl,l3c"@ {
        Option::Some("hisi_sccl,l3c"@)
    } else if u == "L3PMC"@ {
        Option::Some("amd_l3"@)
    } else {
        Option::None
    }
}

/// The Linux PMU name for a `Unit` field: the fixed mapping where one
/// exists, else the unit prefixed with `uncore_`.
pub open spec fn spec_pmu_linux(u: Seq<char>) -> Seq<char> {
    match spec_pmu_from_json(u) {
        Option::Some(p) => p,
        Option::None => "uncore_"@ + u,
    }
}

/// The raw event-code part of a description: the hexadecimal text after the
/// `0x` prefix of the `EventCode` field's first comma segment, or zero
/// where the field is absent.
pub open spec fn spec_code_part(m: Seq<(Seq<char>, Seq<char>)>) -> Option<u64> {
    match spec_get(m, "EventCode"@) {
        Option::None => Option::Some(0u64),
        Option::Some(c) => spec_parse_hex(first_comma_seg(c).skip(2)),
    }
}

/// The combined event code: the code part, with the `ExtSel` field's value
/// folded in at bit 21 where present.
pub open spec fn spec_base_event_code(m: Seq<(Seq<char>, Seq<char>)>) -> Option<u64> {
    match spec_code_part(m) {
        Option::None => Option::None,
        Option::Some(cp) => match spec_get(m, "ExtSel"@) {
            Option::None => Option::Some(cp),
            Option::Some(c) => match spec_parse_hex(c.skip(2)) {
                Option::None => Option::None,
                Option::Some(e) => Option::Some(cp | (e << 21u64)),
            },
        },
    }
}

/// The unit mask: the `UMask` field's hexadecimal value, where present.
/// The outer option reports a parse failure.
pub open spec fn spec_umask_field(m: Seq<(Seq<char>, Seq<char>)>) -> Option<Option<u64>> {
    match spec_get(m, "UMask"@) {
        Option::None => Option::Some(Option::None),
        Option::Some(u) => match spec_parse_hex(u.skip(2)) {
            Option::None => Option::None,
            Option::Some(v) => Option::Some(Option::Some(v)),
        },
    }
}

/// The counter mask: the `CounterMask` field's decimal value, where present
/// and within eight bits.
pub open spec fn spec_cmask_field(m: Seq<(Seq<char>, Seq<char>)>) -> Option<Option<u8>> {
    match spec_get(m, "CounterMask"@) {
        Option::None => Option::Some(Option::None),
        Option::Some(c) => match spec_parse_dec(c) {
            Option::None => Option::None,
            Option::Some(v) => {
                if v <= 255 {
                    Option::Some(Option::Some(v as u8))
                } else {
                    Option::None
                }
            },
        },
    }
}

/// A boolean flag field: absent means false, else its signed decimal value
/// compared against zero.
pub open spec fn spec_flag_field(m: Seq<(Seq<char>, Seq<char>)>, key: Seq<char>) -> Option<bool> {
    match spec_get(m, key) {
        Option::None => Option::Some(false),
        Option::Some(e) => match spec_parse_i32(e) {
            Option::None => Option::None,
            Option::Some(v) => Option::Some(v != 0),
        },
    }
}

/// An MSR field's value: a single character is decimal, anything longer is
/// hexadecimal after its `0x` prefix; absent means all-ones.
pub open spec fn spec_msr_part(field: Option<Seq<char>>) -> Option<u64> {
    match field {
        Option::None => Option::Some(0xffff_ffff_ffff_ffffu64),
        Option::Some(s) => {
            if s.len() == 1 {
                spec_parse_dec(s)
            } else {
                spec_parse_hex(s.skip(2))
            }
        },
    }
}

/// The MSR address-value pair of a description: the `MSRIndex` field's
/// first comma segment and the `MSRValue` field, present only where the
/// index is not all-ones.
pub open spec fn spec_msr_field(m: Seq<(Seq<char>, Seq<char>)>) -> Option<Option<(u64, u64)>> {
    let idx_field = match spec_get(m, "MSRIndex"@) {
        Option::None => Option::None,
        Option::Some(s) => Option::Some(first_comma_seg(s)),
    };
    match spec_msr_part(idx_field) {
        Option::None => Option::None,
        Option::Some(idx) => match spec_msr_part(spec_get(m, "MSRValue"@)) {
            Option::None => Option::None,
            Option::Some(val) => {
                if idx != 0xffff_ffff_ffff_ffffu64 {
                    Option::Some(Option::Some((idx, val)))
                } else {
                    Option::Some(Option::None)
                }
            },
        },
    }
}

/// Whether every numeric field present in the description parses.
pub open spec fn spec_hpc_ok(m: Seq<(Seq<char>, Seq<char>)>) -> bool {
    &&& spec_base_event_code(m) is Some
    &&& spec_umask_field(m) is Some
    &&& spec_cmask_field(m) is Some
    &&& spec_flag_field(m, "EdgeDetect"@) is Some
    &&& spec_flag_field(m, "Invert"@) is Some
    &&& spec_msr_field(m) is Some
}

/// An event that can be directly polled or sampled on a hardware
/// performance counter.
#[derive(Debug)]
pub struct HPCEvent {
    /// Name of the event.
    pub name: String,
    /// Topic of the event: the database file the event was described in.
    pub topic: String,
    /// Brief summary of the event.
    pub desc: String,
    /// Long description of the event.
    pub long_desc: String,
    /// Event code programmed into the counter's configuration.
    pub event_code: Option<u64>,
    /// Unit mask qualifying the event.
    pub umask: Option<u64>,
    /// Counter mask of the event.
    pub cmask: Option<u8>,
    /// Edge detect bit.
    pub edge: bool,
    /// Invert counter mask flag.
    pub inv: bool,
    /// Additional MSR address and value required to program the event.
    pub msr: Option<(u64, u64)>,
    /// Names of the PMU that measures this event: the Linux name and the
    /// manufacturer's name.
    pub pmu: Option<(String, String)>,
}

impl HPCEvent {
    /// The stored event code.
    pub open spec fn spec_event_code(&self) -> Option<u64> {
        self.event_code
    }

    /// The stored unit mask.
    pub open spec fn spec_umask(&self) -> Option<u64> {
        self.umask
    }

    /// The stored counter mask.
    pub open spec fn spec_cmask(&self) -> Option<u8> {
        self.cmask
    }

    /// The stored edge-detect flag.
    pub open spec fn spec_edge(&self) -> bool {
        self.edge
    }

    /// The stored invert flag.
    pub open spec fn spec_inv(&self) -> bool {
        self.inv
    }

    /// The stored MSR pair.
    pub open spec fn spec_msr(&self) -> Option<(u64, u64)> {
        self.msr
    }

    /// The stored PMU names.
    pub open spec fn spec_pmu(&self) -> Option<(Seq<char>, Seq<char>)> {
        match self.pmu {
            Option::None => Option::None,
            Option::Some(p) => Option::Some((p.0@, p.1@)),
        }
    }

    /// Get Linux PMU names from `Unit` names in the event database.
    pub fn _pmu_from_json(val: &str) -> (r: Option<&'static str>)
        ensures
            match r {
                Option::Some(p) => spec_pmu_from_json(val@) == Option::Some(p@),
                Option::None => spec_pmu_from_json(val@) is None,
            },
    {
        if str_eq(val, "CBO") {
            Some("uncore_cbox")
        } else if str_eq(val, "NCU") {
            Some("uncore_cbox_0")
        } else if str_eq(val, "QPI LL") {
            Some("uncore_qpi")
        } else if str_eq(val, "SBO") {
            Some("uncore_sbox")
        } else if str_eq(val, "iMPH-U") {
            Some("uncore_arb")
        } else if str_eq(val, "CPU-M-CF") {
            Some("cpum_cf")
        } else if str_eq(val, "CPU-M-SF") {
            Some("cpum_sf")
        } else if str_eq(val, "UPI LL") {
            Some("uncore_upi")
        } else if str_eq(val, "hisi_sccl,ddrc") {
            Some("hisi_sccl,ddrc")
        } else if str_eq(val, "hisi_sccl,hha") {
            Some("hisi_sccl,hha")
        } else if str_eq(val, "hisi_sccl,l3c") {
            Some("hisi_sccl,l3c")
        } else if str_eq(val, "L3PMC") {
            Some("amd_l3")
        } else {
            None
        }
    }

    /// Create a new `HPCEvent` by parsing the fields of a `RawEvent`.
    ///
    /// Succeeds exactly when every numeric field present parses; the
    /// resulting fields are pinned by the field specifications.  A `Unit`
    /// of `NCU` overrides the unit mask and event code.
    pub fn from_raw_event(revt: &RawEvent) -> (r: Result<HPCEvent, Error>)
        requires
            spec_get(revt@, "EventName"@) is Some,
            spec_get(revt@, "Topic"@) is Some,
            spec_get(revt@, "EventCode"@) matches Option::Some(c) ==> first_comma_seg(c).len()
                >= 2,
            spec_get(revt@, "ExtSel"@) matches Option::Some(c) ==> c.len() >= 2,
            spec_get(revt@, "UMask"@) matches Option::Some(u) ==> u.len() >= 2,
            spec_get(revt@, "MSRIndex"@) matches Option::Some(s) ==> first_comma_seg(s).len()
                >= 1,
            spec_get(revt@, "MSRValue"@) matches Option::Some(s) ==> s.len() >= 1,
        ensures
            r is Ok <==> spec_hpc_ok(revt@),
            r matches Err(e) ==> e is ParseInt,
            r matches Ok(evt) ==> {
                let m = revt@;
                let ncu = spec_get(m, "Unit"@) == Option::Some("NCU"@);
                &&& Option::Some(evt.name@) == spec_get(m, "EventName"@)
                &&& Option::Some(evt.topic@) == spec_get(m, "Topic"@)
                &&& evt.desc@ == match spec_get(m, "BriefDescription"@) {
                    Option::Some(d) => d,
                    Option::None => Seq::<char>::empty(),
                }
                &&& evt.long_desc@ == match spec_get(m, "PublicDescription"@) {
                    Option::Some(d) => d,
                    Option::None => Seq::<char>::empty(),
                }
                &&& evt.spec_event_code() == Option::Some(
                    if ncu {
                        0xffu64
                    } else {
                        spec_base_event_code(m)->Some_0
                    },
                )
                &&& evt.spec_umask() == (
                if ncu {
                    Option::Some(0u64)
                } else {
                    spec_umask_field(m)->Some_0
                })
                &&& evt.spec_cmask() == spec_cmask_field(m)->Some_0
                &&& evt.spec_edge() == spec_flag_field(m, "EdgeDetect"@)->Some_0
                &&& evt.spec_inv() == spec_flag_field(m, "Invert"@)->Some_0
                &&& evt.spec_msr() == spec_msr_field(m)->Some_0
                &&& evt.spec_pmu() == match spec_get(m, "Unit"@) {
                    Option::None => Option::<(Seq<char>, Seq<char>)>::None,
                    Option::Some(u) => Option::Some((spec_pmu_linux(u), u)),
                }
            },
    {
        let name = match revt.get("EventName") {
            Some(n) => n,
            None => {
                return Err(Error::ParseInt);
            },
        };
        let topic = match revt.get("Topic") {
            Some(t) => t,
            None => {
                return Err(Error::ParseInt);
            },
        };
        let desc = match revt.get("BriefDescription") {
            Some(d) => d,
            None => String::new(),
        };
        let long_desc = match revt.get("PublicDescription") {
            Some(d) => d,
            None => String::new(),
        };
        let mut evt_code: u64 = 0;
        if let Some(c) = revt.get("EventCode") {
            let seg = first_comma_seg_exec(c.as_str());
            let hex_text = skip2(&seg);
            match parse_hex(hex_text.as_str()) {
                Some(v) => {
                    evt_code = v;
                },
                None => {
                    return Err(Error::ParseInt);
                },
            }
        }
        if let Some(c) = revt.get("ExtSel") {
            let hex_text = skip2(&c);
            match parse_hex(hex_text.as_str()) {
                Some(v) => {
                    evt_code = evt_code | (v << 21u64);
                },
                None => {
                    return Err(Error::ParseInt);
                },
            }
        }
        let mut event_code: Option<u64> = Some(evt_code);
        let mut umask: Option<u64> = None;
        if let Some(u) = revt.get("UMask") {
            let hex_text = skip2(&u);
            match parse_hex(hex_text.as_str()) {
                Some(v) => {
                    umask = Some(v);
                },
                None => {
                    return Err(Error::ParseInt);
                },
            }
        }
        let mut cmask: Option<u8> = None;
        if let Some(c) = revt.get("CounterMask") {
            match parse_dec(c.as_str()) {
                Some(v) => {
                    if v <= 255 {
                        cmask = Some(v as u8);
                    } else {
                        return Err(Error::ParseInt);
                    }
                },
                None => {
                    return Err(Error::ParseInt);
                },
            }
        }
        let mut edge: bool = false;
        if let Some(e) = revt.get("EdgeDetect") {
            match parse_i32(e.as_str()) {
                Some(v) => {
                    edge = v != 0;
                },
                None => {
                    return Err(Error::ParseInt);
                },
            }
        }
        let mut inv: bool = false;
        if let Some(iv) = revt.get("Invert") {
            match parse_i32(iv.as_str()) {
                Some(v) => {
                    inv = v != 0;
                },
                None => {
                    return Err(Error::ParseInt);
                },
            }
        }
        let mut msr_idx: u64 = 0xffff_ffff_ffff_ffff;
        if let Some(s) = revt.get("MSRIndex") {
            let seg = first_comma_seg_exec(s.as_str());
            let v = if seg.as_str().unicode_len() == 1 {
                parse_dec(seg.as_str())
            } else {
                let hex_text = skip2(&seg);
                parse_hex(hex_text.as_str())
            };
            match v {
                Some(v) => {
                    msr_idx = v;
                },
                None => {
                    return Err(Error::ParseInt);
                },
            }
        }
        let mut msr_val: u64 = 0xffff_ffff_ffff_ffff;
        if let Some(s) = revt.get("MSRValue") {
            let v = if s.as_str().unicode_len() == 1 {
                parse_dec(s.as_str())
            } else {
                let hex_text = skip2(&s);
                parse_hex(hex_text.as_str())
            };
            match v {
                Some(v) => {
                    msr_val = v;
                },
                None => {
                    return Err(Error::ParseInt);
                },
            }
        }
        let msr: Option<(u64, u64)> = if msr_idx != 0xffff_ffff_ffff_ffff {
            Some((msr_idx, msr_val))
        } else {
            None
        };
        let mut pmu: Option<(String, String)> = None;
        if let Some(u) = revt.get("Unit") {
            if str_eq(u.as_str(), "NCU") {
                umask = Some(0);
                event_code = Some(0xff);
            }
            let lin = match HPCEvent::_pmu_from_json(u.as_str()) {
                Some(p) => String::from_str(p),
                None => String::from_str("uncore_").concat(u.as_str()),
            };
            pmu = Some((lin, u));
        }
        Ok(
            HPCEvent {
                name,
                topic,
                desc,
                long_desc,
                event_code,
                umask,
                cmask,
                edge,
                inv,
                msr,
                pmu,
            },
        )
    }
}

/// Derived event which is counted from several `HPCEvent`s.
#[derive(Debug)]
pub struct MetricEvent {
    /// Name of the event.
    pub name: String,
    /// Topic of the event: the database file the event was described in.
    pub topic: String,
    /// Brief summary of the event.
    pub desc: String,
    /// Long description of the event.
    pub long_desc: String,
    /// Expression used to calculate the metric: the parsed tree and the
    /// source text it was parsed from.
    pub expr: (MetricExpr, String),
    /// Metadata for grouping metrics.
    pub metric_group: Option<String>,
}

impl MetricEvent {
    /// The model of the stored expression tree.
    pub open spec fn spec_expr_model(&self) -> ExprModel {
        self.expr.0@
    }

    /// The stored formula text.
    pub open spec fn spec_expr_text(&self) -> Seq<char> {
        self.expr.1@
    }

    /// The stored metric group, if any.
    pub open spec fn spec_metric_group(&self) -> Option<Seq<char>> {
        match self.metric_group {
            Option::None => Option::None,
            Option::Some(g) => Option::Some(g@),
        }
    }

    /// The stored expression tree.
    pub fn expr(&self) -> (r: &MetricExpr)
        ensures
            r@ == self.spec_expr_model(),
    {
        &self.expr.0
    }

    /// Create a new `MetricEvent` by parsing the fields of a `RawEvent`.
    pub fn from_raw_event(revt: &RawEvent) -> (r: Result<MetricEvent, Error>)
        requires
            spec_get(revt@, "MetricName"@) is Some,
            spec_get(revt@, "Topic"@) is Some,
            spec_get(revt@, "MetricExpr"@) is Some,
        ensures
            match spec_parse(spec_get(revt@, "MetricExpr"@)->Some_0) {
                Option::Some(model) => r matches Ok(evt) && {
                    &&& Option::Some(evt.name@) == spec_get(revt@, "MetricName"@)
                    &&& Option::Some(evt.topic@) == spec_get(revt@, "Topic"@)
                    &&& evt.spec_expr_model() == model
                    &&& Option::Some(evt.spec_expr_text()) == spec_get(revt@, "MetricExpr"@)
                    &&& evt.spec_metric_group() == spec_get(revt@, "MetricGroup"@)
                },
                Option::None => r matches Err(e) && e is ParseMetricExpr,
            },
    {
        let name = match revt.get("MetricName") {
            Some(n) => n,
            None => {
                return Err(Error::ParseMetricExpr);
            },
        };
        let topic = match revt.get("Topic") {
            Some(t) => t,
            None => {
                return Err(Error::ParseMetricExpr);
            },
        };
        let desc = match revt.get("BriefDescription") {
            Some(d) => d,
            None => String::new(),
        };
        let long_desc = match revt.get("PublicDescription") {
            Some(d) => d,
            None => String::new(),
        };
        let expr_text = match revt.get("MetricExpr") {
            Some(x) => x,
            None => {
                return Err(Error::ParseMetricExpr);
            },
        };
        let parsed = match MetricExpr::parse_str(expr_text.as_str()) {
            Ok(p) => p,
            Err(e) => {
                return Err(e);
            },
        };
        let metric_group = revt.get("MetricGroup");
        Ok(MetricEvent { name, topic, desc, long_desc, expr: (parsed, expr_text), metric_group })
    }
}

/// Whether the regular expression `pattern` matches anywhere in `text`.
///
/// What the regular-expression language means takes pages to state, so the
/// result carries a name instead; it is a function of the two texts alone.
pub uninterp spec fn regex_match_of(pattern: Seq<char>, text: Seq<char>) -> bool;

/// Whether `pattern` is a regular expression the matcher accepts.
pub uninterp spec fn regex_pattern_ok(pattern: Seq<char>) -> bool;

/// Relies on regex::Regex::new, which accepts exactly the valid patterns,
/// and regex::Regex::is_match, whose result depends on the pattern and the
/// haystack alone.
#[verifier::external_body]
fn regex_is_match(pattern: &str, text: &str) -> (r: Result<bool, Error>)
    ensures
        r is Ok <==> regex_pattern_ok(pattern@),
        r matches Ok(b) ==> b == regex_match_of(pattern@, text@),
        r matches Err(e) ==> e is InvalidRegex,
{
    match regex::Regex::new(pattern) {
        Ok(re) => Ok(re.is_match(text)),
        Err(_) => Err(Error::InvalidRegex),
    }
}

/// The positions, in order, of the events whose names `pattern` matches.
pub open spec fn spec_matching_from(events: Seq<HPCEvent>, pattern: Seq<char>, i: int) -> Seq<
    int,
>
    decreases events.len() - i,
{
    if i < 0 || i >= events.len() {
        Seq::empty()
    } else if regex_match_of(pattern, events[i].name@) {
        seq![i] + spec_matching_from(events, pattern, i + 1)
    } else {
        spec_matching_from(events, pattern, i + 1)
    }
}

/// Search a list of events by name; the `name` serves as a regular
/// expression, and the positions of the events it matches come back in
/// order.  An invalid pattern is rejected.
pub fn find_pmu_by_name(events: &Vec<HPCEvent>, name: &str) -> (r: Result<Vec<usize>, Error>)
    ensures
        r is Ok <==> regex_pattern_ok(name@),
        !regex_pattern_ok(name@) ==> (r matches Err(e) && e is InvalidRegex),
        r matches Ok(v) ==> v@.map_values(|x: usize| x as int) == spec_matching_from(
            events@,
            name@,
            0,
        ),
{
    // Reject an invalid pattern up front, before any name is filtered.
    match regex_is_match(name, "") {
        Ok(_) => (),
        Err(e) => {
            return Err(e);
        },
    }
    let mut out: Vec<usize> = Vec::new();
    let mut i: usize = 0;
    let n = events.len();
    while i < n
        invariant
            i <= n,
            n == events@.len(),
            regex_pattern_ok(name@),
            spec_matching_from(events@, name@, 0) =~= out@.map_values(|x: usize| x as int)
                + spec_matching_from(events@, name@, i as int),
            forall|k: int| 0 <= k < out@.len() ==> (#[trigger] out@[k]) < i,
        decreases n - i,
    {
        let ghost done = out@;
        let matched = match regex_is_match(name, events[i].name.as_str()) {
            Ok(b) => b,
            Err(e) => {
                return Err(e);
            },
        };
        if matched {
            out.push(i);
            proof {
                assert(out@.map_values(|x: usize| x as int) =~= done.map_values(
                    |x: usize| x as int,
                ) + seq![i as int]);
                assert((done.map_values(|x: usize| x as int) + seq![i as int])
                    + spec_matching_from(events@, name@, i + 1) =~= done.map_values(
                    |x: usize| x as int,
                ) + (seq![i as int] + spec_matching_from(events@, name@, i + 1)));
            }
        }
        i += 1;
    }
    proof {
        assert(spec_matching_from(events@, name@, n as int) =~= Seq::<int>::empty());
        assert(out@.map_values(|x: usize| x as int) + Seq::<int>::empty() =~= out@.map_values(
            |x: usize| x as int,
        ));
    }
    Ok(out)
}

/// Events that can be programmed into a performance counter.
#[derive(Debug)]
pub enum EventWrapper {
    /// Events that can be directly programmed into performance counters.
    HPC(HPCEvent),
    /// Derived events that are counted over groups of performance counters.
    Metric(MetricEvent),
}

impl EventWrapper {
    /// Create a new `EventWrapper` by parsing a `RawEvent`: a record with
    /// an `EventName` is a hardware event, one with a `MetricName` a
    /// derived metric, and anything else is rejected.
    pub fn from_raw_event(revt: &RawEvent) -> (r: Result<EventWrapper, Error>)
        requires
            spec_get(revt@, "EventName"@) is Some ==> {
                &&& spec_get(revt@, "Topic"@) is Some
                &&& (spec_get(revt@, "EventCode"@) matches Option::Some(c) ==> first_comma_seg(
                    c,
                ).len() >= 2)
                &&& (spec_get(revt@, "ExtSel"@) matches Option::Some(c) ==> c.len() >= 2)
                &&& (spec_get(revt@, "UMask"@) matches Option::Some(u) ==> u.len() >= 2)
                &&& (spec_get(revt@, "MSRIndex"@) matches Option::Some(s) ==> first_comma_seg(
                    s,
                ).len() >= 1)
                &&& (spec_get(revt@, "MSRValue"@) matches Option::Some(s) ==> s.len() >= 1)
            },
            spec_get(revt@, "EventName"@) is None && spec_get(revt@, "MetricName"@) is Some ==> {
                &&& spec_get(revt@, "Topic"@) is Some
                &&& spec_get(revt@, "MetricExpr"@) is Some
            },
        ensures
            spec_get(revt@, "EventName"@) is Some ==> (spec_hpc_ok(revt@) <==> (r matches Ok(w)
                && w is HPC)),
            spec_get(revt@, "EventName"@) is None && spec_get(revt@, "MetricName"@) is Some ==> (
            spec_parse(spec_get(revt@, "MetricExpr"@)->Some_0) is Some <==> (r matches Ok(w)
                && w is Metric)),
            spec_get(revt@, "EventName"@) is None && spec_get(revt@, "MetricName"@) is None ==> (r
                matches Err(e) && e is ParseEvent),
    {
        if revt.contains_key("EventName") {
            match HPCEvent::from_raw_event(revt) {
                Ok(evt) => Ok(EventWrapper::HPC(evt)),
                Err(e) => Err(e),
            }
        } else if revt.contains_key("MetricName") {
            match MetricEvent::from_raw_event(revt) {
                Ok(evt) => Ok(EventWrapper::Metric(evt)),
                Err(e) => Err(e),
            }
        } else {
            Err(Error::ParseEvent)
        }
    }
}

} // verus!
