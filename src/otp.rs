use vstd::prelude::*;
use vstd::string::StrSliceExecFns;
use vstd::string::StringExecFns;
use crate::error::TotpError;

verus! {

/// What Base32 decoding (RFC 4648 alphabet, no padding) makes of a text:
/// `None` when the text is not valid Base32.
pub uninterp spec fn base32_decoded(s: Seq<char>) -> Option<Seq<u8>>;

/// The HMAC-SHA1 tag of `msg` under `key`.
pub uninterp spec fn hmac_sha1_tag(key: Seq<u8>, msg: Seq<u8>) -> Seq<u8>;

/// Relies on `base32::decode` with the RFC 4648 alphabet without padding:
/// its result depends on the text alone.
#[verifier::external_body]
pub(crate) fn decode_base32(s: &str) -> (r: Option<Vec<u8>>)
    ensures
        match r {
            Some(v) => base32_decoded(s@) == Some(v@),
            None => base32_decoded(s@) is None,
        },
{
    base32::decode(base32::Alphabet::RFC4648 { padding: false }, s)
}

/// Relies on `hmacsha1::hmac_sha1` (package hmac-sha1): a 20-byte tag that depends on the key
/// and the message alone.
#[verifier::external_body]
fn hmac_tag(key: &Vec<u8>, msg: &Vec<u8>) -> (r: Vec<u8>)
    ensures
        r@ == hmac_sha1_tag(key@, msg@),
        r@.len() == 20,
{
    hmacsha1::hmac_sha1(key, msg).to_vec()
}

/// The eight bytes of `n`, most significant first.
pub open spec fn be_bytes(n: u64) -> Seq<u8> {
    Seq::new(8, |i: int| ((n >> ((56 - 8 * i) as u64)) & 0xff) as u8)
}

/// Ten to the power `d`.
pub open spec fn pow10(d: nat) -> nat
    decreases d,
{
    if d == 0 {
        1
    } else {
        10 * pow10((d - 1) as nat)
    }
}

/// Dynamic truncation: the low nibble of byte 19 picks a four-byte window,
/// read big-endian with the top bit cleared.
pub open spec fn truncated(mac: Seq<u8>) -> nat {
    let o = (mac[19] % 16) as int;
    (mac[o] % 128) as nat * 0x100_0000 + mac[o + 1] as nat * 0x1_0000 + mac[o + 2] as nat * 0x100
        + mac[o + 3] as nat
}

/// The character of a decimal digit.
pub open spec fn digit_char(d: nat) -> char {
    if d == 0 {
        '0'
    } else if d == 1 {
        '1'
    } else if d == 2 {
        '2'
    } else if d == 3 {
        '3'
    } else if d == 4 {
        '4'
    } else if d == 5 {
        '5'
    } else if d == 6 {
        '6'
    } else if d == 7 {
        '7'
    } else if d == 8 {
        '8'
    } else {
        '9'
    }
}

/// The last `w` decimal digits of `n`, left-padded with `'0'`.
pub open spec fn padded_decimal(n: nat, w: nat) -> Seq<char>
    decreases w,
{
    if w == 0 {
        Seq::empty()
    } else {
        padded_decimal(n / 10, (w - 1) as nat).push(digit_char(n % 10))
    }
}

/// A digit count is supported when `10^digits` fits in 32 bits.
pub open spec fn valid_digits(digits: u32) -> bool {
    1 <= digits <= 9
}

/// The code that an HMAC tag gives for `digits` digits.
pub open spec fn code_of_tag(mac: Seq<u8>, digits: nat) -> Seq<char> {
    padded_decimal(truncated(mac) % pow10(digits), digits)
}

/// The HOTP code of a Base32 secret at a counter, or the error it fails with.
pub open spec fn hotp_spec(secret: Seq<char>, counter: u64, digits: u32) -> Result<Seq<char>, TotpError> {
    match base32_decoded(secret) {
        None => Err(TotpError::Decode),
        Some(key) => if key.len() == 0 {
            Err(TotpError::Decode)
        } else if !valid_digits(digits) {
            Err(TotpError::Config)
        } else {
            Ok(code_of_tag(hmac_sha1_tag(key, be_bytes(counter)), digits as nat))
        },
    }
}

/// The TOTP code at time `now`: the HOTP code at step `now / period`.
pub open spec fn totp_spec(secret: Seq<char>, digits: u32, period: u64, now: u64) -> Result<Seq<char>, TotpError> {
    if period == 0 {
        Err(TotpError::Config)
    } else {
        hotp_spec(secret, now / period, digits)
    }
}

fn counter_bytes(counter: u64) -> (r: Vec<u8>)
    ensures
        r@ == be_bytes(counter),
{
    let mut v: Vec<u8> = Vec::new();
    for i in 0..8usize
        invariant
            v@.len() == i,
            forall|k: int| 0 <= k < i ==> v@[k] == be_bytes(counter)[k],
    {
        let shift: u64 = 56 - 8 * (i as u64);
        v.push(((counter >> shift) & 0xff) as u8);
    }
    assert(v@ =~= be_bytes(counter));
    v
}

fn pow10_u32(d: u32) -> (r: u32)
    requires
        d <= 9,
    ensures
        r as nat == pow10(d as nat),
        r >= 1,
{
    reveal_with_fuel(pow10, 10);
    let mut r: u32 = 1;
    for i in 0..d
        invariant
            d <= 9,
            r as nat == pow10(i as nat),
            r <= 1_000_000_000,
            r >= 1,
    {
        proof {
            assert(i < 9);
            assert(pow10((i + 1) as nat) == 10 * pow10(i as nat));
            assert(r <= 100_000_000) by {
                lemma_pow10_small(i as nat);
            }
        }
        r = r * 10;
    }
    r
}

proof fn lemma_pow10_small(i: nat)
    requires
        i <= 8,
    ensures
        pow10(i) <= 100_000_000,
{
    reveal_with_fuel(pow10, 10);
}

fn digit_text(d: u32) -> (r: &'static str)
    requires
        d < 10,
    ensures
        r@ == seq![digit_char(d as nat)],
{
    proof {
        reveal_strlit("0");
        reveal_strlit("1");
        reveal_strlit("2");
        reveal_strlit("3");
        reveal_strlit("4");
        reveal_strlit("5");
        reveal_strlit("6");
        reveal_strlit("7");
        reveal_strlit("8");
        reveal_strlit("9");
    }
    if d == 0 {
        "0"
    } else if d == 1 {
        "1"
    } else if d == 2 {
        "2"
    } else if d == 3 {
        "3"
    } else if d == 4 {
        "4"
    } else if d == 5 {
        "5"
    } else if d == 6 {
        "6"
    } else if d == 7 {
        "7"
    } else if d == 8 {
        "8"
    } else {
        "9"
    }
}

fn push_padded(out: &mut String, n: u32, w: u32)
    ensures
        final(out)@ == old(out)@ + padded_decimal(n as nat, w as nat),
    decreases w,
{
    if w > 0 {
        push_padded(out, n / 10, w - 1);
        out.append(digit_text(n % 10));
        assert(padded_decimal(n as nat, w as nat) == padded_decimal((n / 10) as nat, (w - 1) as nat).push(
            digit_char((n % 10) as nat),
        ));
    } else {
        assert(padded_decimal(n as nat, w as nat) =~= Seq::<char>::empty());
    }
}

/// The `digits`-digit code that a 20-byte HMAC-SHA1 tag gives: dynamic
/// truncation, then the value modulo `10^digits`, zero-padded.
pub fn code_from_tag(mac: &Vec<u8>, digits: u32) -> (r: Result<String, TotpError>)
    requires
        mac@.len() == 20,
    ensures
        valid_digits(digits) ==> (r matches Ok(s) && s@ == code_of_tag(mac@, digits as nat)),
        !valid_digits(digits) ==> r == Err::<String, TotpError>(TotpError::Config),
{
    if digits < 1 || digits > 9 {
        return Err(TotpError::Config);
    }
    let o: usize = (mac[19] % 16) as usize;
    let p: u32 = (mac[o] % 128) as u32 * 0x100_0000 + mac[o + 1] as u32 * 0x1_0000 + mac[o + 2] as u32
        * 0x100 + mac[o + 3] as u32;
    assert(p as nat == truncated(mac@));
    let m = pow10_u32(digits);
    let mut s = String::new();
    push_padded(&mut s, p % m, digits);
    assert(s@ =~= code_of_tag(mac@, digits as nat));
    Ok(s)
}

/// The HOTP code (RFC 4226) of a Base32 secret at `counter`, `digits` long.
pub fn compute_hotp(secret: &str, counter: u64, digits: u32) -> (r: Result<String, TotpError>)
    ensures
        match r {
            Ok(s) => hotp_spec(secret@, counter, digits) == Ok::<Seq<char>, TotpError>(s@),
            Err(e) => hotp_spec(secret@, counter, digits) == Err::<Seq<char>, TotpError>(e),
        },
{
    let key = match decode_base32(secret) {
        Some(k) => k,
        None => return Err(TotpError::Decode),
    };
    if key.len() == 0 {
        return Err(TotpError::Decode);
    }
    if digits < 1 || digits > 9 {
        return Err(TotpError::Config);
    }
    let msg = counter_bytes(counter);
    let mac = hmac_tag(&key, &msg);
    code_from_tag(&mac, digits)
}

/// The TOTP code (RFC 6238) at Unix time `now` for steps of `period` seconds.
pub fn compute_totp(secret: &str, digits: u32, period: u64, now: u64) -> (r: Result<String, TotpError>)
    ensures
        match r {
            Ok(s) => totp_spec(secret@, digits, period, now) == Ok::<Seq<char>, TotpError>(s@),
            Err(e) => totp_spec(secret@, digits, period, now) == Err::<Seq<char>, TotpError>(e),
        },
{
    if period == 0 {
        return Err(TotpError::Config);
    }
    compute_hotp(secret, now / period, digits)
}

/// Seconds until the current step of `period` seconds ends.
pub fn seconds_remaining(period: u64, now: u64) -> (r: u64)
    requires
        period > 0,
    ensures
        r == period - now % period,
        1 <= r <= period,
        r == period <==> now % period == 0,
{
    period - now % period
}

/// A code is always exactly as long as the digit count asked for.
pub proof fn lemma_hotp_length(secret: Seq<char>, counter: u64, digits: u32)
    requires
        hotp_spec(secret, counter, digits) is Ok,
    ensures
        hotp_spec(secret, counter, digits)->Ok_0.len() == digits,
{
    let key = base32_decoded(secret)->Some_0;
    lemma_padded_length(truncated(hmac_sha1_tag(key, be_bytes(counter))) % pow10(digits as nat), digits as nat);
}

proof fn lemma_padded_length(n: nat, w: nat)
    ensures
        padded_decimal(n, w).len() == w,
    decreases w,
{
    if w > 0 {
        lemma_padded_length(n / 10, (w - 1) as nat);
    }
}

/// HOTP is a function of its inputs: two calls on the same secret, counter
/// and digit count give the same result.
pub proof fn lemma_hotp_deterministic(s1: Seq<char>, s2: Seq<char>, c1: u64, c2: u64, d1: u32, d2: u32)
    requires
        s1 == s2,
        c1 == c2,
        d1 == d2,
    ensures
        hotp_spec(s1, c1, d1) == hotp_spec(s2, c2, d2),
{
}

/// With a positive period, TOTP at `now` is HOTP at counter `now / period`.
pub proof fn lemma_totp_is_hotp_at_step(secret: Seq<char>, digits: u32, period: u64, now: u64)
    requires
        period > 0,
    ensures
        totp_spec(secret, digits, period, now) == hotp_spec(secret, now / period, digits),
{
}

} // verus!
