use totp::error::TotpError;
use totp::otp::{code_from_tag, compute_hotp, compute_totp, seconds_remaining};

const RFC_SECRET: &str = "GEZDGNBVGY3TQOJQGEZDGNBVGY3TQOJQ";

#[test]
fn hotp_rfc4226_vectors() {
    let expected = [
        "755224", "287082", "359152", "969429", "338314", "254676", "287922", "162583", "399871",
        "520489",
    ];
    for (counter, code) in expected.iter().enumerate() {
        assert_eq!(compute_hotp(RFC_SECRET, counter as u64, 6), Ok(code.to_string()));
    }
}

#[test]
fn hotp_is_deterministic_and_fixed_width() {
    for digits in 1u32..=9 {
        let a = compute_hotp(RFC_SECRET, 12345, digits).unwrap();
        let b = compute_hotp(RFC_SECRET, 12345, digits).unwrap();
        assert_eq!(a, b);
        assert_eq!(a.len(), digits as usize);
        assert!(a.chars().all(|c| c.is_ascii_digit()));
    }
}

#[test]
fn hotp_keeps_leading_zeros() {
    // RFC 6238 gives 07081804 at step 1111111109 / 30.
    assert_eq!(compute_hotp(RFC_SECRET, 1111111109 / 30, 8), Ok("07081804".to_string()));
}

#[test]
fn hotp_rejects_bad_digits() {
    assert_eq!(compute_hotp(RFC_SECRET, 0, 0), Err(TotpError::Config));
    assert_eq!(compute_hotp(RFC_SECRET, 0, 10), Err(TotpError::Config));
}

#[test]
fn hotp_rejects_bad_secret() {
    assert_eq!(compute_hotp("not base32!", 0, 6), Err(TotpError::Decode));
    assert_eq!(compute_hotp("", 0, 6), Err(TotpError::Decode));
}

#[test]
fn totp_rfc6238_sha1_vectors() {
    let cases = [
        (59u64, "94287082"),
        (1111111109, "07081804"),
        (1111111111, "14050471"),
        (1234567890, "89005924"),
        (2000000000, "69279037"),
        (20000000000, "65353130"),
    ];
    for (now, code) in cases.iter() {
        assert_eq!(compute_totp(RFC_SECRET, 8, 30, *now), Ok(code.to_string()));
    }
}

#[test]
fn totp_equals_hotp_at_step() {
    for now in [0u64, 29, 30, 31, 1_700_000_000, u64::MAX] {
        assert_eq!(compute_totp(RFC_SECRET, 6, 30, now), compute_hotp(RFC_SECRET, now / 30, 6));
    }
}

#[test]
fn totp_rejects_zero_period() {
    assert_eq!(compute_totp(RFC_SECRET, 6, 0, 100), Err(TotpError::Config));
}

#[test]
fn seconds_remaining_bounds() {
    assert_eq!(seconds_remaining(30, 0), 30);
    assert_eq!(seconds_remaining(30, 29), 1);
    assert_eq!(seconds_remaining(30, 31), 29);
    assert_eq!(seconds_remaining(30, 60), 30);
    for now in 0u64..200 {
        let r = seconds_remaining(7, now);
        assert!(r >= 1 && r <= 7);
        assert_eq!(r == 7, now % 7 == 0);
    }
}

#[test]
fn code_from_tag_rfc4226_example() {
    // The worked example of RFC 4226, section 5.4: 0x50ef7f19 = 1357872921.
    let mac: Vec<u8> = vec![
        0x1f, 0x86, 0x98, 0x69, 0x0e, 0x02, 0xca, 0x16, 0x61, 0x85, 0x50, 0xef, 0x7f, 0x19, 0xda,
        0x8e, 0x94, 0x5b, 0x55, 0x5a,
    ];
    assert_eq!(code_from_tag(&mac, 6), Ok("872921".to_string()));
    assert_eq!(code_from_tag(&mac, 9), Ok("357872921".to_string()));
    assert_eq!(code_from_tag(&mac, 0), Err(TotpError::Config));
}
