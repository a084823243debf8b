use vstd::prelude::*;
use vstd::utf8::{valid_utf8, decode_utf8, encode_utf8, encode_scalar, is_ascii_chars, is_ascii_chars_encode_utf8};
use vstd::string::{StrSliceExecFns, StringExecFns};
use base64::Engine;
use base64::engine::general_purpose::STANDARD;
use aes_gcm::aead::{Aead, KeyInit};

verus! {

// ---------------------------------------------------------------------------
// Trusted wrappers around the outside crates.
//
// Base64 decoding and AES-256-GCM decryption are deterministic functions of
// their inputs; their results are given names below, and every contract in
// this module speaks of those names.
// ---------------------------------------------------------------------------

/// What base64's standard engine `decode` returns on a given string:
/// the decoded bytes, or nothing when the string is not valid base64.
pub uninterp spec fn b64_decode_of(s: Seq<char>) -> Option<Seq<u8>>;

/// What AES-256-GCM decryption returns for a key and a `nonce ‖ ciphertext ‖ tag`
/// blob (the nonce being the first 12 bytes): the plaintext, or nothing when
/// the tag does not verify.
pub uninterp spec fn gcm_open_of(key: Seq<u8>, blob: Seq<u8>) -> Option<Seq<u8>>;

/// Relies on base64's `STANDARD.encode`: the standard engine's `decode`
/// inverts it, and the encoding takes four characters for every three bytes.
#[verifier::external_body]
fn b64_encode(data: &[u8]) -> (r: String)
    requires
        data@.len() < usize::MAX / 4,
    ensures
        b64_decode_of(r@) == Some::<Seq<u8>>(data@),
        r@.len() == 4 * ((data@.len() + 2) / 3),
{
    STANDARD.encode(data)
}

/// Relies on base64's `STANDARD.decode`: the result depends on the input
/// alone, and the engine decodes canonically (padding must be canonical,
/// trailing bits are rejected), so each byte string has exactly one string
/// that decodes to it.
#[verifier::external_body]
fn b64_decode(s: &str) -> (r: Option<Vec<u8>>)
    ensures
        match r {
            Some(v) => b64_decode_of(s@) == Some::<Seq<u8>>(v@) && (forall|s2: Seq<char>|
                b64_decode_of(s2) == Some::<Seq<u8>>(v@) ==> s2 == s@),
            None => b64_decode_of(s@) is None,
        },
{
    STANDARD.decode(s).ok()
}

/// Relies on aes_gcm's `Aes256Gcm` with the aead `encrypt`: a fresh 12-byte
/// nonce is drawn from the OS RNG and prepended, and the cipher appends a
/// 16-byte tag. Sealing fails only when the plaintext exceeds the cipher's
/// 2^36-byte limit (a 32-byte key always builds the cipher). Decrypting the
/// blob with the same key yields the plaintext back; under any other key,
/// GCM's authentication rejects the blob.
#[verifier::external_body]
fn gcm_seal(key: &[u8], plaintext: &[u8]) -> (r: Result<Vec<u8>, ()>)
    requires
        key@.len() == 32,
    ensures
        plaintext@.len() <= 68719476736 ==> r is Ok,
        r matches Ok(c) ==> {
            &&& c@.len() == plaintext@.len() + 28
            &&& gcm_open_of(key@, c@) == Some::<Seq<u8>>(plaintext@)
            &&& forall|k2: Seq<u8>| k2.len() == 32 && k2 != key@ ==> gcm_open_of(k2, c@) is None
        },
{
    let cipher = match aes_gcm::Aes256Gcm::new_from_slice(key) {
        Ok(c) => c,
        Err(_) => return Err(()),
    };
    let mut nonce_bytes = [0u8; 12];
    rand::RngCore::fill_bytes(&mut rand::rngs::OsRng, &mut nonce_bytes);
    let nonce = aes_gcm::Nonce::from_slice(&nonce_bytes);
    let ciphertext = match cipher.encrypt(nonce, plaintext) {
        Ok(c) => c,
        Err(_) => return Err(()),
    };
    let mut result = nonce_bytes.to_vec();
    result.extend(ciphertext);
    Ok(result)
}

/// Relies on aes_gcm's `Aes256Gcm` with the aead `decrypt`, the nonce taken
/// from the first 12 bytes of the blob: the result depends on key and blob alone.
#[verifier::external_body]
fn gcm_open(key: &[u8], blob: &[u8]) -> (r: Option<Vec<u8>>)
    requires
        key@.len() == 32,
        blob@.len() >= 12,
    ensures
        match r {
            Some(p) => gcm_open_of(key@, blob@) == Some::<Seq<u8>>(p@),
            None => gcm_open_of(key@, blob@) is None,
        },
{
    let cipher = match aes_gcm::Aes256Gcm::new_from_slice(key) {
        Ok(c) => c,
        Err(_) => return None,
    };
    let (nonce_bytes, ciphertext) = blob.split_at(12);
    let nonce = aes_gcm::Nonce::from_slice(nonce_bytes);
    cipher.decrypt(nonce, ciphertext).ok()
}

/// Relies on `String::from_utf8`: it succeeds exactly on valid UTF-8 and
/// decodes it.
#[verifier::external_body]
fn string_from_utf8(bytes: Vec<u8>) -> (r: Option<String>)
    ensures
        match r {
            Some(s) => valid_utf8(bytes@) && s@ == decode_utf8(bytes@),
            None => !valid_utf8(bytes@),
        },
{
    String::from_utf8(bytes).ok()
}

/// Relies on str's `PartialEq`: equality of the character sequences.
#[verifier::external_body]
pub(crate) fn str_eq(a: &str, b: &str) -> (r: bool)
    ensures
        r == (a@ == b@),
{
    a == b
}

/// Relies on `String::push`: appends the character.
#[verifier::external_body]
pub(crate) fn string_push(s: &mut String, c: char)
    ensures
        final(s)@ == old(s)@.push(c),
{
    s.push(c);
}

/// Relies on rand's `OsRng` `fill_bytes`: 32 bytes from the OS CSPRNG; of
/// their values nothing is promised.
#[verifier::external_body]
fn random_bytes_32() -> (r: Vec<u8>)
    ensures
        r@.len() == 32,
{
    let mut key = [0u8; 32];
    rand::RngCore::fill_bytes(&mut rand::rngs::OsRng, &mut key);
    key.to_vec()
}

/// Relies on rand's `thread_rng` with `gen_range`: a value below the bound;
/// which one is not promised.
#[verifier::external_body]
fn random_index(bound: usize) -> (r: usize)
    requires
        bound > 0,
    ensures
        r < bound,
{
    rand::Rng::gen_range(&mut rand::thread_rng(), 0..bound)
}

/// Relies on chrono's `Utc::now` with `timestamp`: the clock's value, of
/// which nothing is promised.
#[verifier::external_body]
pub fn now_timestamp() -> (r: i64) {
    chrono::Utc::now().timestamp()
}

/// Relies on chrono's `Utc::now` with `to_rfc3339`: the clock's value as an
/// ISO-8601 string, of which nothing is promised.
#[verifier::external_body]
pub fn now_rfc3339() -> (r: String) {
    chrono::Utc::now().to_rfc3339()
}

// ---------------------------------------------------------------------------
// The mathematical model of the crypto layer.
// ---------------------------------------------------------------------------

/// The AES key encoded by a secret-key string: its base64 decoding, accepted
/// only at exactly 32 bytes.
pub open spec fn key_bytes_of(key: Seq<char>) -> Option<Seq<u8>> {
    match b64_decode_of(key) {
        Some(kb) => if kb.len() == 32 {
            Some(kb)
        } else {
            None
        },
        None => None,
    }
}

/// A secret-key string that decodes to a 32-byte AES key.
pub open spec fn is_valid_key(key: Seq<char>) -> bool {
    key_bytes_of(key) is Some
}

/// What `decrypt` yields on a key and an encrypted blob: base64-decode both,
/// open the AES-GCM blob, and decode the plaintext as UTF-8. Any stage
/// failing means failure.
pub open spec fn spec_decrypt(key: Seq<char>, encrypted: Seq<char>) -> Option<Seq<char>> {
    match key_bytes_of(key) {
        None => None,
        Some(kb) => match b64_decode_of(encrypted) {
            None => None,
            Some(data) => if data.len() < 12 {
                None
            } else {
                match gcm_open_of(kb, data) {
                    None => None,
                    Some(pt) => if valid_utf8(pt) {
                        Some(decode_utf8(pt))
                    } else {
                        None
                    },
                }
            },
        },
    }
}

/// The encrypted string `c` is an AES-GCM sealing of plaintext `p` under the
/// key encoded by `key`: it base64-decodes to a blob that opens to `p`'s
/// UTF-8 bytes under that key, and under no other 32-byte key.
pub open spec fn spec_sealed(key: Seq<char>, p: Seq<char>, c: Seq<char>) -> bool {
    &&& (exists|blob: Seq<u8>|
        {
            &&& #[trigger] b64_decode_of(c) == Some::<Seq<u8>>(blob)
            &&& blob.len() == encode_utf8(p).len() + 28
            &&& gcm_open_of(key_bytes_of(key)->Some_0, blob) == Some::<Seq<u8>>(encode_utf8(p))
            &&& forall|k2: Seq<u8>|
                k2.len() == 32 && k2 != key_bytes_of(key)->Some_0 ==> gcm_open_of(k2, blob) is None
        })
    &&& (forall|k2: Seq<char>| is_valid_key(k2) && k2 != key ==> spec_decrypt(k2, c) is None)
}

// ---------------------------------------------------------------------------
// Key generation and encryption.
// ---------------------------------------------------------------------------

/// Generates a new 256-bit secret key for AES-GCM encryption, base64-encoded.
pub fn generate_secret_key() -> (r: String)
    ensures
        is_valid_key(r@),
        r@.len() == 44,
{
    let kb = random_bytes_32();
    b64_encode(kb.as_slice())
}

/// Encrypts a message with AES-256-GCM under the given base64 secret key,
/// with a fresh nonce, returning base64(nonce ‖ ciphertext ‖ tag).
pub fn encrypt(secret_key: &str, plaintext: &str) -> (r: Result<String, String>)
    ensures
        r matches Ok(c) ==> is_valid_key(secret_key@) && spec_sealed(secret_key@, plaintext@, c@)
            && c@.len() >= 40,
        !is_valid_key(secret_key@) ==> r is Err,
        is_valid_key(secret_key@) && encode_utf8(plaintext@).len() + 28 < usize::MAX / 4
            && encode_utf8(plaintext@).len() <= 68719476736 ==> r is Ok,
{
    let key_bytes = match b64_decode(secret_key) {
        Some(kb) => kb,
        None => {
            return Err("Invalid secret key".to_owned());
        },
    };
    if key_bytes.len() != 32 {
        return Err("Secret key must be 32 bytes".to_owned());
    }
    let plaintext_bytes = plaintext.as_bytes();
    if plaintext_bytes.len() >= usize::MAX / 4 - 28 {
        return Err("Encryption failed".to_owned());
    }
    let sealed = match gcm_seal(key_bytes.as_slice(), plaintext_bytes) {
        Ok(c) => c,
        Err(_) => {
            return Err("Encryption failed".to_owned());
        },
    };
    let encoded = b64_encode(sealed.as_slice());
    proof {
        assert forall|k2: Seq<char>| is_valid_key(k2) && k2 != secret_key@ implies spec_decrypt(
            k2,
            encoded@,
        ) is None by {
            let kb2 = key_bytes_of(k2)->Some_0;
            assert(b64_decode_of(k2) == Some::<Seq<u8>>(kb2));
            if kb2 == key_bytes@ {
                // Canonical decoding is injective, so the key strings agree.
                assert(k2 == secret_key@);
                assert(false);
            }
            assert(gcm_open_of(kb2, sealed@) is None);
        }
    }
    Ok(encoded)
}

/// Decrypts a message produced by `encrypt`. A bad key is reported as such;
/// a tampered or truncated blob fails with a single undifferentiated error
/// that never says which cryptographic stage rejected it.
pub fn decrypt(secret_key: &str, encrypted: &str) -> (r: Result<String, String>)
    ensures
        r matches Ok(p) ==> spec_decrypt(secret_key@, encrypted@) == Some(p@),
        r is Err ==> spec_decrypt(secret_key@, encrypted@) is None,
        b64_decode_of(secret_key@) is None ==> (r matches Err(e) && e@ == "Invalid secret key"@),
        (b64_decode_of(secret_key@) matches Some(kb) && kb.len() != 32) ==> (r matches Err(e)
            && e@ == "Secret key must be 32 bytes"@),
        is_valid_key(secret_key@) && spec_decrypt(secret_key@, encrypted@) is None ==> (
        r matches Err(e) && e@ == "Decryption failed - invalid token or tampered data"@),
{
    let key_bytes = match b64_decode(secret_key) {
        Some(kb) => kb,
        None => {
            return Err("Invalid secret key".to_owned());
        },
    };
    if key_bytes.len() != 32 {
        return Err("Secret key must be 32 bytes".to_owned());
    }
    let data = match b64_decode(encrypted) {
        Some(d) => d,
        None => {
            return Err("Decryption failed - invalid token or tampered data".to_owned());
        },
    };
    if data.len() < 12 {
        return Err("Decryption failed - invalid token or tampered data".to_owned());
    }
    let plaintext_bytes = match gcm_open(key_bytes.as_slice(), data.as_slice()) {
        Some(p) => p,
        None => {
            return Err("Decryption failed - invalid token or tampered data".to_owned());
        },
    };
    match string_from_utf8(plaintext_bytes) {
        Some(s) => Ok(s),
        None => Err("Decryption failed - invalid token or tampered data".to_owned()),
    }
}

// ---------------------------------------------------------------------------
// The round-trip laws of the crypto layer.
// ---------------------------------------------------------------------------

/// Decrypting a sealed blob under the key that sealed it yields the plaintext
/// back, whatever nonce the sealing drew.
pub proof fn lemma_encrypt_then_decrypt(key: Seq<char>, p: Seq<char>, c: Seq<char>)
    requires
        is_valid_key(key),
        spec_sealed(key, p, c),
    ensures
        spec_decrypt(key, c) == Some(p),
{
    let blob = choose|blob: Seq<u8>|
        {
            &&& #[trigger] b64_decode_of(c) == Some::<Seq<u8>>(blob)
            &&& blob.len() == encode_utf8(p).len() + 28
            &&& gcm_open_of(key_bytes_of(key)->Some_0, blob) == Some::<Seq<u8>>(encode_utf8(p))
            &&& forall|k2: Seq<u8>|
                k2.len() == 32 && k2 != key_bytes_of(key)->Some_0 ==> gcm_open_of(k2, blob) is None
        };
    vstd::utf8::encode_utf8_valid_utf8(p);
    vstd::utf8::encode_utf8_decode_utf8(p);
}

/// Decrypting a sealed blob under any key other than the one that sealed
/// it fails: canonical base64 gives each key bytes one encoding, and GCM's
/// authentication rejects the blob under other key bytes.
pub proof fn lemma_decrypt_wrong_key_fails(k1: Seq<char>, k2: Seq<char>, p: Seq<char>, c: Seq<char>)
    requires
        is_valid_key(k1),
        is_valid_key(k2),
        k1 != k2,
        spec_sealed(k1, p, c),
    ensures
        spec_decrypt(k2, c) is None,
{
}

// ---------------------------------------------------------------------------
// Decimal formatting, verified: the auth-token payload embeds a timestamp.
// ---------------------------------------------------------------------------

/// The character for one decimal digit.
pub open spec fn dec_digit(d: int) -> char
    recommends
        0 <= d < 10,
{
    ((48 + d) as u8) as char
}

/// The decimal digits of a natural number, most significant first.
pub open spec fn spec_dec_nat(n: nat) -> Seq<char>
    decreases n,
{
    if n < 10 {
        seq![dec_digit(n as int)]
    } else {
        spec_dec_nat((n / 10) as nat).push(dec_digit((n % 10) as int))
    }
}

/// The decimal rendering of a signed number.
pub open spec fn spec_dec_i64(n: int) -> Seq<char> {
    if n >= 0 {
        spec_dec_nat(n as nat)
    } else {
        seq!['-'] + spec_dec_nat((-n) as nat)
    }
}

/// The characters of a digit vector read back-to-front.
spec fn rev_digit_chars(s: Seq<u8>) -> Seq<char> {
    Seq::new(s.len(), |j: int| dec_digit(s[s.len() - 1 - j] as int))
}

/// Powers of ten, for bounding the length of decimal renderings.
pub open spec fn pow10(k: nat) -> nat
    decreases k,
{
    if k == 0 {
        1
    } else {
        10 * pow10((k - 1) as nat)
    }
}

/// A number below the k-th power of ten renders in at most k digits.
proof fn lemma_dec_nat_len(n: nat, k: nat)
    requires
        1 <= k,
        n < pow10(k),
    ensures
        spec_dec_nat(n).len() <= k,
    decreases n,
{
    if n >= 10 {
        assert(pow10(k) == 10 * pow10((k - 1) as nat));
        if k == 1 {
            assert(pow10(1) == 10 * pow10(0));
            assert(false);
        }
        assert(n / 10 < pow10((k - 1) as nat)) by {
            assert(n < 10 * pow10((k - 1) as nat));
        }
        lemma_dec_nat_len((n / 10) as nat, (k - 1) as nat);
    }
}

/// Every character of a decimal rendering is a digit.
proof fn lemma_dec_nat_digits(n: nat)
    ensures
        forall|j: int|
            0 <= j < spec_dec_nat(n).len() ==> 48 <= #[trigger] spec_dec_nat(n)[j] as int <= 57,
    decreases n,
{
    if n < 10 {
        assert(spec_dec_nat(n)[0] == dec_digit(n as int));
        assert(48 <= dec_digit(n as int) as int <= 57);
    } else {
        lemma_dec_nat_digits((n / 10) as nat);
        let prev = spec_dec_nat((n / 10) as nat);
        assert(spec_dec_nat(n) == prev.push(dec_digit((n % 10) as int)));
        assert(48 <= dec_digit((n % 10) as int) as int <= 57);
        assert forall|j: int|
            0 <= j < spec_dec_nat(n).len() implies 48 <= #[trigger] spec_dec_nat(n)[j] as int
            <= 57 by {
            if j < prev.len() {
                assert(spec_dec_nat(n)[j] == prev[j]);
            } else {
                assert(spec_dec_nat(n)[j] == dec_digit((n % 10) as int));
            }
        }
    }
}

/// A 64-bit signed number renders in at most 20 ASCII characters.
proof fn lemma_dec_i64_short_ascii(n: int)
    requires
        -0x8000000000000000 <= n < 0x8000000000000000,
    ensures
        spec_dec_i64(n).len() <= 20,
        is_ascii_chars(spec_dec_i64(n)),
{
    assert(pow10(0) == 1);
    assert(pow10(1) == 10);
    assert(pow10(2) == 100);
    assert(pow10(3) == 1000);
    assert(pow10(4) == 10000);
    assert(pow10(5) == 100000);
    assert(pow10(6) == 1000000);
    assert(pow10(7) == 10000000);
    assert(pow10(8) == 100000000);
    assert(pow10(9) == 1000000000);
    assert(pow10(10) == 10000000000);
    assert(pow10(11) == 100000000000);
    assert(pow10(12) == 1000000000000);
    assert(pow10(13) == 10000000000000);
    assert(pow10(14) == 100000000000000);
    assert(pow10(15) == 1000000000000000);
    assert(pow10(16) == 10000000000000000);
    assert(pow10(17) == 100000000000000000);
    assert(pow10(18) == 1000000000000000000);
    assert(pow10(19) == 10000000000000000000);
    let m: nat = if n >= 0 {
        n as nat
    } else {
        (-n) as nat
    };
    assert(m < pow10(19));
    lemma_dec_nat_len(m, 19);
    lemma_dec_nat_digits(m);
    assert forall|j: int| 0 <= j < spec_dec_nat(m).len() implies '\0'
        <= #[trigger] spec_dec_nat(m)[j] <= '\u{7f}' by {
        assert(48 <= spec_dec_nat(m)[j] as int <= 57);
    }
    if n < 0 {
        assert forall|j: int| 0 <= j < spec_dec_i64(n).len() implies '\0'
            <= #[trigger] spec_dec_i64(n)[j] <= '\u{7f}' by {
            if j == 0 {
                assert(spec_dec_i64(n)[0] == '-');
            } else {
                assert(spec_dec_i64(n)[j] == spec_dec_nat(m)[j - 1]);
            }
        }
    }
}

/// Renders a signed number in decimal.
pub fn i64_to_string(n: i64) -> (r: String)
    ensures
        r@ == spec_dec_i64(n as int),
{
    let neg = n < 0;
    let m: u64 = if n >= 0 {
        n as u64
    } else {
        (-(n as i128)) as u64
    };
    let mut rev: Vec<u8> = Vec::new();
    rev.push((m % 10) as u8);
    let mut x: u64 = m / 10;
    while x > 0
        invariant
            rev@.len() > 0,
            forall|j: int| 0 <= j < rev@.len() ==> #[trigger] rev@[j] < 10,
            spec_dec_nat(m as nat) == (if x > 0 {
                spec_dec_nat(x as nat) + rev_digit_chars(rev@)
            } else {
                rev_digit_chars(rev@)
            }),
        decreases x,
    {
        let ghost old_rev = rev@;
        let ghost old_x = x as nat;
        let d = (x % 10) as u8;
        rev.push(d);
        x = x / 10;
        proof {
            assert(rev_digit_chars(old_rev.push(d)) =~= seq![dec_digit(d as int)] + rev_digit_chars(
                old_rev,
            ));
            if x > 0 {
                assert(spec_dec_nat(old_x) == spec_dec_nat((old_x / 10) as nat).push(
                    dec_digit((old_x % 10) as int),
                ));
                assert(spec_dec_nat((old_x / 10) as nat).push(dec_digit((old_x % 10) as int))
                    + rev_digit_chars(old_rev) =~= spec_dec_nat((old_x / 10) as nat)
                    + rev_digit_chars(old_rev.push(d)));
            } else {
                assert(spec_dec_nat(old_x) == seq![dec_digit(old_x as int)]);
                assert(seq![dec_digit(old_x as int)] + rev_digit_chars(old_rev) =~= rev_digit_chars(
                    old_rev.push(d),
                ));
            }
        }
    }
    let mut r = String::new();
    if neg {
        string_push(&mut r, '-');
    }
    let ghost prefix: Seq<char> = if neg {
        seq!['-']
    } else {
        Seq::empty()
    };
    assert(r@ =~= prefix);
    let mut i: usize = rev.len();
    while i > 0
        invariant
            i <= rev@.len(),
            forall|j: int| 0 <= j < rev@.len() ==> #[trigger] rev@[j] < 10,
            r@ == prefix + rev_digit_chars(rev@).take(rev@.len() - i),
        decreases i,
    {
        let ghost old_r = r@;
        let c = (48 + rev[i - 1]) as char;
        string_push(&mut r, c);
        i -= 1;
        proof {
            assert(c == rev_digit_chars(rev@)[rev@.len() - i - 1]);
            assert(old_r.push(c) =~= prefix + rev_digit_chars(rev@).take(rev@.len() - i));
        }
    }
    proof {
        assert(rev_digit_chars(rev@).take(rev@.len() - 0) =~= rev_digit_chars(rev@));
        if neg {
            assert(r@ == prefix + spec_dec_nat(m as nat));
            assert(prefix + spec_dec_nat(m as nat) =~= spec_dec_i64(n as int));
        } else {
            assert(prefix + spec_dec_nat(m as nat) =~= spec_dec_nat(m as nat));
        }
    }
    r
}

// ---------------------------------------------------------------------------
// The auth-token payload: "scanlink:" ++ device_id ++ ":" ++ timestamp.
// ---------------------------------------------------------------------------

/// The fixed prefix of every auth-token payload.
pub open spec fn spec_auth_prefix() -> Seq<char> {
    seq!['s', 'c', 'a', 'n', 'l', 'i', 'n', 'k', ':']
}

/// The payload minted for a device at a given timestamp.
pub open spec fn spec_auth_payload(d: Seq<char>, ts: int) -> Seq<char> {
    spec_auth_prefix() + d + seq![':'] + spec_dec_i64(ts)
}

/// What payload verification accepts: the payload splits on colons into
/// `scanlink`, the expected device id, and an ignored rest. The device id
/// part ends at the next colon or at the end of the payload.
pub open spec fn auth_payload_matches(p: Seq<char>, d: Seq<char>) -> bool {
    &&& p.len() >= 9 + d.len()
    &&& p.subrange(0, 9) == spec_auth_prefix()
    &&& p.subrange(9, 9 + d.len() as int) == d
    &&& (forall|k: int| 0 <= k < d.len() ==> d[k] != ':')
    &&& (p.len() == 9 + d.len() || p[9 + d.len() as int] == ':')
}

/// What `validate_auth_token` returns: the token decrypts under the key to a
/// payload naming the expected device.
pub open spec fn spec_validate_token(token: Seq<char>, d: Seq<char>, key: Seq<char>) -> bool {
    match spec_decrypt(key, token) {
        Some(p) => auth_payload_matches(p, d),
        None => false,
    }
}

/// The token is a sealing, under the key, of the payload minted for the
/// device at the given timestamp.
pub open spec fn spec_token_for(token: Seq<char>, key: Seq<char>, d: Seq<char>, ts: int) -> bool {
    is_valid_key(key) && spec_sealed(key, spec_auth_payload(d, ts), token)
}

/// UTF-8 encoding distributes over concatenation.
proof fn lemma_encode_utf8_concat(a: Seq<char>, b: Seq<char>)
    ensures
        encode_utf8(a + b) == encode_utf8(a) + encode_utf8(b),
    decreases a.len(),
{
    if a.len() == 0 {
        assert(a + b =~= b);
        assert(encode_utf8(a) =~= Seq::<u8>::empty());
        assert(encode_utf8(a) + encode_utf8(b) =~= encode_utf8(b));
    } else {
        assert((a + b)[0] == a[0]);
        assert((a + b).drop_first() =~= a.drop_first() + b);
        lemma_encode_utf8_concat(a.drop_first(), b);
        assert(encode_utf8(a + b) == encode_scalar(a[0] as u32) + (encode_utf8(a.drop_first())
            + encode_utf8(b)));
        assert(encode_scalar(a[0] as u32) + (encode_utf8(a.drop_first()) + encode_utf8(b)) =~= (
        encode_scalar(a[0] as u32) + encode_utf8(a.drop_first())) + encode_utf8(b));
    }
}

/// The payload's UTF-8 size exceeds the device id's by at most 30 bytes:
/// the fixed prefix, the separator and at most 20 digits of timestamp.
proof fn lemma_auth_payload_utf8_len(d: Seq<char>, ts: int)
    requires
        -0x8000000000000000 <= ts < 0x8000000000000000,
    ensures
        encode_utf8(spec_auth_payload(d, ts)).len() <= encode_utf8(d).len() + 30,
{
    let pre = spec_auth_prefix();
    let colon = seq![':'];
    let dec = spec_dec_i64(ts);
    lemma_encode_utf8_concat(pre, d);
    lemma_encode_utf8_concat(pre + d, colon);
    lemma_encode_utf8_concat(pre + d + colon, dec);
    assert(is_ascii_chars(pre)) by {
        assert forall|i: int| 0 <= i < pre.len() implies '\0' <= #[trigger] pre[i]
            <= '\u{7f}' by {
            if i == 0 {
                assert(pre[0] == 's');
            } else if i == 1 {
                assert(pre[1] == 'c');
            } else if i == 2 {
                assert(pre[2] == 'a');
            } else if i == 3 {
                assert(pre[3] == 'n');
            } else if i == 4 {
                assert(pre[4] == 'l');
            } else if i == 5 {
                assert(pre[5] == 'i');
            } else if i == 6 {
                assert(pre[6] == 'n');
            } else if i == 7 {
                assert(pre[7] == 'k');
            } else {
                assert(pre[8] == ':');
            }
        }
    }
    is_ascii_chars_encode_utf8(pre);
    assert(is_ascii_chars(colon)) by {
        assert(colon[0] == ':');
    }
    is_ascii_chars_encode_utf8(colon);
    lemma_dec_i64_short_ascii(ts);
    is_ascii_chars_encode_utf8(dec);
}

/// Builds the payload string for a device at a timestamp.
fn build_auth_payload(device_id: &str, ts: i64) -> (r: String)
    ensures
        r@ == spec_auth_payload(device_id@, ts as int),
{
    let mut p = "scanlink:".to_owned();
    proof {
        reveal_strlit("scanlink:");
        assert(p@ =~= spec_auth_prefix());
    }
    p.append(device_id);
    let colon = ":";
    proof {
        reveal_strlit(":");
        assert(colon@ =~= seq![':']);
    }
    p.append(colon);
    let ts_str = i64_to_string(ts);
    p.append(ts_str.as_str());
    proof {
        assert(p@ =~= spec_auth_payload(device_id@, ts as int));
    }
    p
}

/// Creates an authentication token for a device, stamped with the given time.
/// On an invalid key, or if sealing fails, the result is empty.
pub fn create_auth_token_at(device_id: &str, secret_key: &str, ts: i64) -> (r: String)
    ensures
        r@.len() != 0 ==> spec_token_for(r@, secret_key@, device_id@, ts as int),
        !is_valid_key(secret_key@) ==> r@.len() == 0,
        is_valid_key(secret_key@) && encode_utf8(device_id@).len() <= 999000 ==> r@.len() != 0,
{
    let payload = build_auth_payload(device_id, ts);
    proof {
        if encode_utf8(device_id@).len() <= 999000 {
            lemma_auth_payload_utf8_len(device_id@, ts as int);
            assert(encode_utf8(payload@).len() <= 1000000);
        }
    }
    match encrypt(secret_key, payload.as_str()) {
        Ok(token) => token,
        Err(_) => String::new(),
    }
}

/// Creates an authentication token for a device, stamped with the current time.
pub fn create_auth_token(device_id: &str, secret_key: &str) -> (r: String)
    ensures
        r@.len() != 0 ==> exists|ts: int| spec_token_for(r@, secret_key@, device_id@, ts),
        !is_valid_key(secret_key@) ==> r@.len() == 0,
        is_valid_key(secret_key@) && encode_utf8(device_id@).len() <= 999000 ==> r@.len() != 0,
{
    let ts = now_timestamp();
    let token = create_auth_token_at(device_id, secret_key, ts);
    proof {
        if token@.len() != 0 {
            assert(spec_token_for(token@, secret_key@, device_id@, ts as int));
        }
    }
    token
}

/// Checks a decrypted payload against the expected device id.
fn payload_matches(payload: &str, device_id: &str) -> (r: bool)
    ensures
        r == auth_payload_matches(payload@, device_id@),
{
    let plen = payload.unicode_len();
    let dlen = device_id.unicode_len();
    if plen < 9 || plen - 9 < dlen {
        return false;
    }
    let prefix = "scanlink:";
    proof {
        reveal_strlit("scanlink:");
        assert(prefix@ =~= spec_auth_prefix());
    }
    let mut i: usize = 0;
    while i < 9
        invariant
            i <= 9,
            plen == payload@.len(),
            plen >= 9 + dlen,
            dlen == device_id@.len(),
            prefix@ == spec_auth_prefix(),
            forall|k: int| 0 <= k < i ==> payload@[k] == spec_auth_prefix()[k],
        decreases 9 - i,
    {
        let c = payload.get_char(i);
        let e = prefix.get_char(i);
        if c != e {
            proof {
                assert(payload@.subrange(0, 9)[i as int] != spec_auth_prefix()[i as int]);
            }
            return false;
        }
        i += 1;
    }
    let mut k: usize = 0;
    while k < dlen
        invariant
            k <= dlen,
            plen == payload@.len(),
            plen >= 9 + dlen,
            dlen == device_id@.len(),
            forall|j: int|
                0 <= j < k ==> payload@[9 + j] == device_id@[j] && #[trigger] device_id@[j] != ':',
        decreases dlen - k,
    {
        let pc = payload.get_char(9 + k);
        let dc = device_id.get_char(k);
        if pc != dc {
            proof {
                assert(payload@.subrange(9, 9 + dlen as int)[k as int] != device_id@[k as int]);
            }
            return false;
        }
        if dc == ':' {
            return false;
        }
        k += 1;
    }
    if plen > 9 + dlen {
        let b = payload.get_char(9 + dlen);
        if b != ':' {
            return false;
        }
    }
    proof {
        assert(payload@.subrange(0, 9) =~= spec_auth_prefix());
        assert(payload@.subrange(9, 9 + dlen as int) =~= device_id@);
    }
    true
}

/// Validates an authentication token: decrypts it under the key and checks
/// that the payload names the expected device.
pub fn validate_auth_token(token: &str, expected_device_id: &str, secret_key: &str) -> (r: bool)
    ensures
        r == spec_validate_token(token@, expected_device_id@, secret_key@),
{
    match decrypt(secret_key, token) {
        Ok(payload) => payload_matches(payload.as_str(), expected_device_id),
        Err(_) => false,
    }
}

// ---------------------------------------------------------------------------
// The laws of token minting and validation.
// ---------------------------------------------------------------------------

/// A payload minted for a colon-free device id is accepted for that device.
pub proof fn lemma_payload_matches_self(d: Seq<char>, ts: int)
    requires
        forall|k: int| 0 <= k < d.len() ==> d[k] != ':',
    ensures
        auth_payload_matches(spec_auth_payload(d, ts), d),
{
    let p = spec_auth_payload(d, ts);
    assert(p.subrange(0, 9) =~= spec_auth_prefix());
    assert(p.subrange(9, 9 + d.len() as int) =~= d);
    assert(p[9 + d.len() as int] == ':');
}

/// A token minted for a colon-free device id validates for that device under
/// the minting key, whatever nonce the sealing drew.
pub proof fn lemma_auth_token_validates(token: Seq<char>, key: Seq<char>, d: Seq<char>, ts: int)
    requires
        spec_token_for(token, key, d, ts),
        forall|k: int| 0 <= k < d.len() ==> d[k] != ':',
    ensures
        spec_validate_token(token, d, key),
{
    lemma_encrypt_then_decrypt(key, spec_auth_payload(d, ts), token);
    lemma_payload_matches_self(d, ts);
}

/// A token minted for a colon-free device id validates for no other device:
/// the payload binds the token to the device named in it.
pub proof fn lemma_auth_token_device_binding(
    token: Seq<char>,
    key: Seq<char>,
    d: Seq<char>,
    d2: Seq<char>,
    ts: int,
)
    requires
        spec_token_for(token, key, d, ts),
        forall|k: int| 0 <= k < d.len() ==> d[k] != ':',
        spec_validate_token(token, d2, key),
    ensures
        d2 == d,
{
    lemma_encrypt_then_decrypt(key, spec_auth_payload(d, ts), token);
    let p = spec_auth_payload(d, ts);
    assert(auth_payload_matches(p, d2));
    assert(p.len() == 9 + d.len() + 1 + spec_dec_i64(ts).len());
    if d2.len() < d.len() {
        assert(p[9 + d2.len() as int] == d[d2.len() as int]);
        assert(p.len() > 9 + d2.len());
        assert(false);
    } else if d2.len() > d.len() {
        assert(d2[d.len() as int] == p.subrange(9, 9 + d2.len() as int)[d.len() as int]);
        assert(p[9 + d.len() as int] == ':');
        assert(false);
    } else {
        assert(d2 =~= p.subrange(9, 9 + d.len() as int));
        assert(p.subrange(9, 9 + d.len() as int) =~= d);
    }
}

/// A token minted under one key validates under no other valid key.
pub proof fn lemma_auth_token_wrong_key(
    token: Seq<char>,
    key: Seq<char>,
    k2: Seq<char>,
    d: Seq<char>,
    d2: Seq<char>,
    ts: int,
)
    requires
        spec_token_for(token, key, d, ts),
        is_valid_key(k2),
        k2 != key,
    ensures
        !spec_validate_token(token, d2, k2),
{
    lemma_decrypt_wrong_key_fails(key, k2, spec_auth_payload(d, ts), token);
}

// ---------------------------------------------------------------------------
// Master tokens and authorized devices.
// ---------------------------------------------------------------------------

/// A character the master-token alphabet admits.
pub open spec fn is_token_char(c: char) -> bool {
    (65 <= c as int <= 90) || (97 <= c as int <= 122) || (48 <= c as int <= 57)
}

/// Generates a random 32-character alphanumeric token.
pub fn generate_master_token() -> (r: String)
    ensures
        r@.len() == 32,
        forall|i: int| 0 <= i < 32 ==> is_token_char(#[trigger] r@[i]),
{
    let mut out = String::new();
    let mut i: usize = 0;
    while i < 32
        invariant
            out@.len() == i,
            i <= 32,
            forall|j: int| 0 <= j < i ==> is_token_char(#[trigger] out@[j]),
        decreases 32 - i,
    {
        let idx = random_index(62);
        let b: u8 = if idx < 26 {
            65 + (idx as u8)
        } else if idx < 52 {
            97 + (idx as u8 - 26)
        } else {
            48 + (idx as u8 - 52)
        };
        string_push(&mut out, b as char);
        i += 1;
    }
    out
}

/// A persistent record of a device that has completed pairing.
pub struct AuthorizedDevice {
    pub device_id: String,
    pub device_name: String,
    pub device_model: Option<String>,
    pub paired_at: String,
    pub last_seen: String,
}

impl AuthorizedDevice {
    /// Builds a record stamped with the current time, both as pairing time
    /// and as last sighting.
    pub fn new(device_id: String, device_name: String, device_model: Option<String>) -> (r:
        AuthorizedDevice)
        ensures
            r.device_id == device_id,
            r.device_name == device_name,
            r.device_model == device_model,
            r.paired_at@ == r.last_seen@,
    {
        let now = now_rfc3339();
        let now2 = now.clone();
        AuthorizedDevice {
            device_id,
            device_name,
            device_model,
            paired_at: now,
            last_seen: now2,
        }
    }
}

} // verus!
