//! Direct, no-syscall reads of a live hardware counter.
//!
//! The kernel exposes a counter's state in a shared control page and bumps a
//! sequence lock around every update.  A reader samples the page's fields
//! and the hardware counter, then re-reads the lock: if it moved, the pass
//! raced an update and is retried.  This module holds the verified decision
//! logic of that protocol over explicit observations; the platform glue
//! performs the volatile reads, the counter-read instruction and the fences,
//! and records what it saw in a `ReadObservation` per pass.

use vstd::prelude::*;
use vstd::arithmetic::div_mod::lemma_add_mod_noop;
use vstd::arithmetic::power2::lemma2_to64;
use vstd::arithmetic::power2::pow2;
use vstd::bits::lemma_u64_low_bits_mask_is_mod;
use vstd::bits::lemma_u64_shl_is_mul;
use vstd::bits::low_bits_mask;
use vstd::wrapping::u64_specs;

use crate::errors::Error;

verus! {

/// What one pass of the sequence-lock protocol observed: the control page's
/// fields as read between the two fences, the hardware readings taken
/// during the pass, and the lock generation re-read at the end of the pass.
#[derive(Debug, Clone, PartialEq, Eq, Structural)]
pub struct ReadObservation {
    /// The lock generation read at the start of the pass.
    pub lock: u32,
    /// Hardware register number plus one; zero means the counter is not
    /// currently scheduled onto hardware.
    pub index: u32,
    /// Two's-complement bit pattern of the page's signed counter base, the
    /// count the kernel had accumulated when it last updated the page.
    pub offset: u64,
    /// Bit width of the hardware counter.
    pub pmc_width: u16,
    /// Total time the event has been enabled, as of the last page update.
    pub time_enabled: u64,
    /// Total time the event was actually running on hardware.
    pub time_running: u64,
    /// Whether the kernel granted reading the timestamp counter for time
    /// scaling.
    pub cap_user_time: bool,
    /// Shift of the fixed-point timestamp-to-time conversion.
    pub time_shift: u16,
    /// Multiplier of the fixed-point timestamp-to-time conversion.
    pub time_mult: u32,
    /// Offset of the fixed-point timestamp-to-time conversion.
    pub time_offset: u64,
    /// What the counter-read instruction returned for register `index - 1`.
    pub pmc: u64,
    /// What the timestamp instruction returned during the pass.
    pub tsc: u64,
    /// The lock generation re-read after the pass's second fence.
    pub lock_after: u32,
}

/// A pass's observations are usable when its shift amounts stay inside the
/// 64-bit registers they are applied to.
pub open spec fn obs_wf(obs: ReadObservation) -> bool {
    obs.time_shift < 64
}

/// The counter width that sign extension uses: widths outside 1..=64 fall
/// back to the full 64 bits.
pub open spec fn clamp_width(w: u16) -> nat {
    if w == 0 || w > 64 {
        64
    } else {
        w as nat
    }
}

/// The value of the low `w` bits of `x` read as a `w`-bit two's-complement
/// number.
pub open spec fn sign_extend(x: int, w: u16) -> int {
    let width = clamp_width(w);
    let m = x % (pow2(width) as int);
    if m >= pow2((width - 1) as nat) {
        m - pow2(width)
    } else {
        m
    }
}

/// The 64-bit two's-complement bit pattern of the integer `x`.
pub open spec fn to_u64(x: int) -> u64 {
    (x % 0x1_0000_0000_0000_0000) as u64
}

/// The elapsed-time delta a pass adds to the enabled and running totals:
/// zero unless time scaling is granted and the counter is multiplexed, else
/// the page's fixed-point conversion applied to the observed timestamp.
/// The arithmetic wraps, as the shared page's totals themselves do.
pub open spec fn spec_time_delta(obs: ReadObservation) -> u64 {
    if obs.cap_user_time && obs.time_enabled != obs.time_running {
        let shift = obs.time_shift as u64;
        let mult = obs.time_mult as u64;
        let quot = obs.tsc >> shift;
        let rem = obs.tsc & (low_bits_mask(shift as nat) as u64);
        u64_specs::wrapping_add(
            u64_specs::wrapping_add(obs.time_offset, u64_specs::wrapping_mul(quot, mult)),
            u64_specs::wrapping_mul(rem, mult) >> shift,
        )
    } else {
        0
    }
}

/// Whether a pass ends the retry loop: the counter is not on hardware (the
/// page's base is the whole answer), or the lock did not move during the
/// pass.
pub open spec fn obs_terminal(obs: ReadObservation) -> bool {
    obs.index == 0 || obs.lock_after == obs.lock
}

/// The `(value, time_enabled, time_running)` triple a terminal pass yields.
///
/// With no hardware register scheduled the page's sign-extended base is the
/// value and the time delta is zero; otherwise the sign-extended hardware
/// reading is added to the sign-extended base, and the time delta advances
/// both totals.
pub open spec fn spec_attempt(obs: ReadObservation) -> (u64, u64, u64) {
    if obs.index == 0 {
        (to_u64(sign_extend(obs.offset as int, obs.pmc_width)), obs.time_enabled, obs.time_running)
    } else {
        let delta = spec_time_delta(obs);
        (
            to_u64(
                sign_extend(obs.pmc as int, obs.pmc_width) + sign_extend(
                    obs.offset as int,
                    obs.pmc_width,
                ),
            ),
            u64_specs::wrapping_add(obs.time_enabled, delta),
            u64_specs::wrapping_add(obs.time_running, delta),
        )
    }
}

/// The result of the retry loop over a sequence of passes: the yield of the
/// first terminal pass, or nothing if every pass raced an update.
pub open spec fn spec_direct_read(script: Seq<ReadObservation>) -> Option<(u64, u64, u64)>
    decreases script.len(),
{
    if script.len() == 0 {
        Option::None
    } else if obs_terminal(script[0]) {
        Option::Some(spec_attempt(script[0]))
    } else {
        spec_direct_read(script.drop_first())
    }
}

/// A pass that raced an update contributes nothing: the read's result is
/// whatever the remaining passes yield, never the values sampled before the
/// lock moved.
pub proof fn lemma_inconsistent_pass_retries(script: Seq<ReadObservation>)
    requires
        script.len() > 0,
        script[0].index != 0,
        script[0].lock_after != script[0].lock,
    ensures
        spec_direct_read(script) == spec_direct_read(script.drop_first()),
{
}

/// The low `width` bits of `v` sign-extended to a 64-bit pattern.
fn sext_bits(v: u64, w: u16) -> (r: u64)
    ensures
        r == to_u64(sign_extend(v as int, w)),
{
    let width: u16 = if w == 0 || w > 64 {
        64
    } else {
        w
    };
    proof {
        lemma2_to64();
    }
    if width == 64 {
        proof {
            assert(v as int % 0x1_0000_0000_0000_0000 == v as int);
            if v as int % 0x1_0000_0000_0000_0000 >= pow2(63) {
                assert(to_u64(v as int - pow2(64)) == v) by {
                    assert((v as int - 0x1_0000_0000_0000_0000) % 0x1_0000_0000_0000_0000
                        == v as int % 0x1_0000_0000_0000_0000) by {
                        vstd::arithmetic::div_mod::lemma_mod_sub_multiples_vanish(
                            v as int,
                            0x1_0000_0000_0000_0000,
                        );
                    }
                }
            }
        }
        v
    } else {
        let shift: u64 = width as u64;
        proof {
            vstd::bits::lemma_u64_pow2_no_overflow(shift as nat);
            lemma_u64_shl_is_mul(1u64, shift);
            vstd::arithmetic::power2::lemma_pow2_pos(shift as nat);
            lemma_low_bits_mask_is_pow2_minus_one(shift as nat);
        }
        let mask: u64 = (1u64 << shift) - 1;
        let m: u64 = v & mask;
        proof {
            lemma_u64_low_bits_mask_is_mod(v, shift as nat);
            assert(m == v as int % (pow2(shift as nat) as int));
            vstd::bits::lemma_u64_pow2_no_overflow((shift - 1) as nat);
            vstd::arithmetic::power2::lemma_pow2_pos((shift - 1) as nat);
        }
        let sign_bit: u64 = 1u64 << (shift - 1);
        proof {
            lemma_u64_shl_is_mul(1u64, (shift - 1) as u64);
        }
        if m >= sign_bit {
            let high: u64 = u64::MAX << shift;
            proof {
                assert(high == 0xffff_ffff_ffff_ffffu64 - ((1u64 << shift) - 1))
                    by (bit_vector)
                    requires
                        shift < 64 && high == 0xffff_ffff_ffff_ffffu64 << shift,
                ;
                assert(m | high == m + high) by (bit_vector)
                    requires
                        shift < 64 && m < (1u64 << shift) && high == 0xffff_ffff_ffff_ffffu64
                            << shift,
                ;
                assert(high == 0x1_0000_0000_0000_0000 - pow2(shift as nat));
                assert(to_u64(sign_extend(v as int, w)) == (m + high) as u64) by {
                    let se = m - pow2(shift as nat);
                    assert(sign_extend(v as int, w) == se);
                    assert(se + 0x1_0000_0000_0000_0000 == m + high);
                    assert(se % 0x1_0000_0000_0000_0000 == (se + 0x1_0000_0000_0000_0000)
                        % 0x1_0000_0000_0000_0000) by {
                        vstd::arithmetic::div_mod::lemma_mod_add_multiples_vanish(
                            se,
                            0x1_0000_0000_0000_0000,
                        );
                    }
                    assert((m + high) % 0x1_0000_0000_0000_0000 == m + high);
                }
            }
            m | high
        } else {
            proof {
                assert(sign_extend(v as int, w) == m);
                assert(to_u64(m as int) == m);
            }
            m
        }
    }
}

/// `low_bits_mask(n)` is one less than the `n`-th power of two.
proof fn lemma_low_bits_mask_is_pow2_minus_one(n: nat)
    ensures
        low_bits_mask(n) == pow2(n) - 1,
    decreases n,
{
    if n == 0 {
        reveal(low_bits_mask);
        lemma2_to64();
    } else {
        lemma_low_bits_mask_is_pow2_minus_one((n - 1) as nat);
        vstd::bits::lemma_low_bits_mask_unfold(n);
        vstd::arithmetic::power2::lemma_pow2_unfold(n);
    }
}

/// The fixed-point time delta of one pass.
fn time_delta(obs: &ReadObservation) -> (r: u64)
    requires
        obs_wf(*obs),
    ensures
        r == spec_time_delta(*obs),
{
    if obs.cap_user_time && obs.time_enabled != obs.time_running {
        let shift: u64 = obs.time_shift as u64;
        let mult: u64 = obs.time_mult as u64;
        let quot: u64 = obs.tsc >> shift;
        proof {
            vstd::bits::lemma_u64_pow2_no_overflow(shift as nat);
            lemma_u64_shl_is_mul(1u64, shift);
            lemma_low_bits_mask_is_pow2_minus_one(shift as nat);
            vstd::arithmetic::power2::lemma_pow2_pos(shift as nat);
        }
        let mask: u64 = (1u64 << shift) - 1;
        let rem: u64 = obs.tsc & mask;
        let scaled: u64 = quot.wrapping_mul(mult);
        let frac: u64 = rem.wrapping_mul(mult) >> shift;
        obs.time_offset.wrapping_add(scaled).wrapping_add(frac)
    } else {
        0
    }
}

/// The triple a terminal pass yields.
fn attempt_value(obs: &ReadObservation) -> (r: (u64, u64, u64))
    requires
        obs_wf(*obs),
    ensures
        r == spec_attempt(*obs),
{
    if obs.index == 0 {
        (sext_bits(obs.offset, obs.pmc_width), obs.time_enabled, obs.time_running)
    } else {
        let delta = time_delta(obs);
        let live: u64 = sext_bits(obs.pmc, obs.pmc_width);
        let base: u64 = sext_bits(obs.offset, obs.pmc_width);
        let value: u64 = live.wrapping_add(base);
        proof {
            let a = sign_extend(obs.pmc as int, obs.pmc_width);
            let b = sign_extend(obs.offset as int, obs.pmc_width);
            lemma_add_mod_noop(a, b, 0x1_0000_0000_0000_0000);
            assert(u64_specs::wrapping_add(to_u64(a), to_u64(b)) == to_u64(a + b)) by {
                assert(to_u64(a) + to_u64(b) == (a % 0x1_0000_0000_0000_0000) + (b
                    % 0x1_0000_0000_0000_0000));
                vstd::arithmetic::div_mod::lemma_mod_bound(a, 0x1_0000_0000_0000_0000);
                vstd::arithmetic::div_mod::lemma_mod_bound(b, 0x1_0000_0000_0000_0000);
                vstd::arithmetic::div_mod::lemma_mod_bound(a + b, 0x1_0000_0000_0000_0000);
            }
        }
        (
            value,
            obs.time_enabled.wrapping_add(delta),
            obs.time_running.wrapping_add(delta),
        )
    }
}

/// Read a counter directly from its control page, bypassing the measurement
/// channel's synchronous read.
///
/// `cap_user_rdpmc` is the page's capability bit for ring-3 counter reads,
/// read before the loop starts; if the kernel has not granted it the call
/// fails with a capability error and uses no observation.  `script` holds
/// one observation per pass of the retry loop, in order; the result is the
/// yield of the first pass that did not race a page update.  The function
/// returns `(value, time_enabled, time_running)`.
pub fn read_counter_rdpmc(
    cap_user_rdpmc: bool,
    script: &Vec<ReadObservation>,
) -> (r: Result<(u64, u64, u64), Error>)
    requires
        forall|i: int| 0 <= i < script@.len() ==> obs_wf(#[trigger] script@[i]),
    ensures
        !cap_user_rdpmc ==> (r matches Err(e) && e is KernelCapabilityError),
        cap_user_rdpmc ==> match spec_direct_read(script@) {
            Option::Some(v) => r matches Ok(t) && t == v,
            Option::None => r matches Err(e) && e is InconsistentRead,
        },
{
    if !cap_user_rdpmc {
        return Err(Error::KernelCapabilityError);
    }
    let mut i: usize = 0;
    proof {
        assert(script@.skip(0) =~= script@);
    }
    while i < script.len()
        invariant
            cap_user_rdpmc,
            i <= script@.len(),
            forall|k: int| 0 <= k < script@.len() ==> obs_wf(#[trigger] script@[k]),
            spec_direct_read(script@.skip(i as int)) == spec_direct_read(script@),
        decreases script@.len() - i,
    {
        let obs = &script[i];
        let ghost rest = script@.skip(i as int);
        proof {
            assert(rest[0] == script@[i as int]);
        }
        if obs.index == 0 || obs.lock_after == obs.lock {
            proof {
                assert(rest[0] == *obs);
                assert(obs_terminal(rest[0]));
                assert(spec_direct_read(rest) == Option::Some(spec_attempt(rest[0])));
                assert(spec_direct_read(script@) == Option::Some(spec_attempt(*obs)));
            }
            return Ok(attempt_value(obs));
        }
        proof {
            assert(rest.drop_first() =~= script@.skip(i as int + 1));
        }
        i += 1;
    }
    proof {
        assert(script@.skip(script@.len() as int).len() == 0);
    }
    Err(Error::InconsistentRead)
}

} // verus!
