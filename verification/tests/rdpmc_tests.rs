use perfmon::Error;
use perfmon::ReadObservation;
use perfmon::read_counter_rdpmc;

fn base_obs() -> ReadObservation {
    ReadObservation {
        lock: 1,
        index: 1,
        offset: 0,
        pmc_width: 48,
        time_enabled: 100,
        time_running: 100,
        cap_user_time: false,
        time_shift: 0,
        time_mult: 0,
        time_offset: 0,
        pmc: 0,
        tsc: 0,
        lock_after: 1,
    }
}

#[test]
fn test_direct_read_capability_error() {
    // With the capability bit clear the read fails at once; the
    // observations (and so any hardware read they stand for) do not matter.
    let mut weird = base_obs();
    weird.pmc = 0xffff_ffff;
    let r = read_counter_rdpmc(false, &vec![weird]);
    assert!(matches!(r.unwrap_err(), Error::KernelCapabilityError));
    let r = read_counter_rdpmc(false, &Vec::new());
    assert!(matches!(r.unwrap_err(), Error::KernelCapabilityError));
}

#[test]
fn test_direct_read_retries_after_lock_change() {
    // The first pass races a page update (the lock moved), so its values
    // must be discarded; the result comes from the second, consistent pass.
    let mut racing = base_obs();
    racing.pmc = 111;
    racing.lock = 1;
    racing.lock_after = 2;
    let mut settled = base_obs();
    settled.pmc = 222;
    settled.lock = 2;
    settled.lock_after = 2;
    let r = read_counter_rdpmc(true, &vec![racing, settled]).unwrap();
    assert_eq!(r.0, 222);
    assert_eq!(r.1, 100);
    assert_eq!(r.2, 100);
}

#[test]
fn test_direct_read_exhausted() {
    let mut racing = base_obs();
    racing.lock = 1;
    racing.lock_after = 2;
    let r = read_counter_rdpmc(true, &vec![racing]);
    assert!(matches!(r.unwrap_err(), Error::InconsistentRead));
}

#[test]
fn test_direct_read_unscheduled_counter() {
    // Index zero: the counter is not on hardware, so the page's accumulated
    // base is the whole answer and the times are reported unscaled.
    let mut obs = base_obs();
    obs.index = 0;
    obs.offset = 12345;
    obs.pmc = 999;
    obs.time_enabled = 10;
    obs.time_running = 5;
    let r = read_counter_rdpmc(true, &vec![obs]).unwrap();
    assert_eq!(r.0, 12345);
    assert_eq!(r.1, 10);
    assert_eq!(r.2, 5);
}

#[test]
fn test_direct_read_sign_extension() {
    // A counter value with the width'th bit set is negative after sign
    // extension; adding it to the base subtracts.
    let mut obs = base_obs();
    obs.pmc_width = 48;
    obs.pmc = 0xffff_ffff_ffff; // -1 in 48 bits
    obs.offset = 10;
    let r = read_counter_rdpmc(true, &vec![obs]).unwrap();
    assert_eq!(r.0, 9);
}

#[test]
fn test_direct_read_time_scaling() {
    // Multiplexed counter with time capability: the timestamp is converted
    // through the page's fixed-point coefficients and added to both totals.
    let mut obs = base_obs();
    obs.cap_user_time = true;
    obs.time_enabled = 100;
    obs.time_running = 40;
    obs.time_shift = 1;
    obs.time_mult = 2;
    obs.time_offset = 10;
    obs.tsc = 5;
    obs.pmc = 7;
    obs.offset = 0;
    // quot = 2, rem = 1; delta = 10 + 2*2 + (1*2 >> 1) = 15.
    let r = read_counter_rdpmc(true, &vec![obs]).unwrap();
    assert_eq!(r.0, 7);
    assert_eq!(r.1, 115);
    assert_eq!(r.2, 55);
}

#[test]
fn test_direct_read_no_scaling_when_not_multiplexed() {
    let mut obs = base_obs();
    obs.cap_user_time = true;
    obs.time_enabled = 100;
    obs.time_running = 100;
    obs.time_shift = 1;
    obs.time_mult = 2;
    obs.time_offset = 10;
    obs.tsc = 5;
    obs.pmc = 7;
    let r = read_counter_rdpmc(true, &vec![obs]).unwrap();
    assert_eq!(r.1, 100);
    assert_eq!(r.2, 100);
}
