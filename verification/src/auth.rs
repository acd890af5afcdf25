//! Passwords, tokens, identifiers, cookies and the request guards' checks.
use argon2::password_hash::{PasswordHasher, PasswordVerifier};
use rand::Rng;
use sha2::Digest;
use vstd::prelude::*;

use crate::error::AppError;
use crate::markdown::{is_uid_char_spec, is_uuid_char_spec};
use crate::models::User;
use crate::text::{
    chars_of, int_decimal, is_whitespace_spec, i64_text, matches_at, occurs_at, push_char, str_eq,
    string_from_range, trim_bounds, trim_seq,
};

verus! {

pub const SESSION_COOKIE: &'static str = "ks_session";

pub const SESSION_TTL_SECS: i64 = 2592000;

pub const API_TOKEN_PREFIX: &'static str = "ksn_";

// ---------------------------------------------------------------------------
// Outside crates
// ---------------------------------------------------------------------------


/// Whether `argon2` accepts `password` against a PHC hash string.
pub uninterp spec fn argon2_verifies(password: Seq<char>, hash: Seq<char>) -> bool;

/// The SHA-256 digest of some bytes.
pub uninterp spec fn sha256_digest(data: Seq<u8>) -> Seq<u8>;

/// The `BASE64URL_NOPAD` text of some bytes.
pub uninterp spec fn base64url_nopad(data: Seq<u8>) -> Seq<char>;

/// The characters of the URL-safe base64 alphabet.
pub open spec fn is_base64url_char(c: char) -> bool {
    ('A' <= c && c <= 'Z') || ('a' <= c && c <= 'z') || ('0' <= c && c <= '9') || c == '-' || c
        == '_'
}

/// `n` bytes from `rand::rng()` (`Rng::fill`); nothing is claimed of them but
/// their number.
#[verifier::external_body]
fn random_bytes(n: usize) -> (bytes: Vec<u8>)
    ensures
        bytes@.len() == n,
{
    let mut bytes = vec![0u8; n];
    rand::rng().fill(bytes.as_mut_slice());
    bytes
}

/// `Rng::random_range(0..n)` on `rand::rng()`, which panics on an empty range:
/// a number below `n`.
#[verifier::external_body]
fn random_below(n: usize) -> (r: usize)
    requires
        n > 0,
    ensures
        r < n,
{
    rand::rng().random_range(0..n)
}

/// The B64 salt text (PHC string alphabet, unpadded) that
/// `SaltString::encode_b64` writes for some bytes.
pub uninterp spec fn b64_salt(bytes: Seq<u8>) -> Seq<char>;

/// `SaltString::encode_b64`, handed on as its text; its error as text. It
/// writes into a buffer of `Salt::MAX_LENGTH` (64) characters, which the
/// 22 characters of 16 bytes always fit, so 16 bytes always encode.
#[verifier::external_body]
fn encode_salt(bytes: &[u8]) -> (r: Result<String, String>)
    ensures
        r matches Ok(t) ==> t@ == b64_salt(bytes@),
        bytes@.len() == 16 ==> r is Ok,
{
    argon2::password_hash::SaltString::encode_b64(bytes).map(|s| s.as_str().to_string()).map_err(
        |e| e.to_string(),
    )
}

/// `Argon2::default().hash_password` under the salt text `salt` (taken as a
/// `Salt`), the PHC string of the hash on success, the error as text otherwise.
/// As `PasswordVerifier::verify_password` recomputes the hash with the
/// parameters and salt of the string, a hash made here verifies for the same
/// password, which the contract states. Argon2's only refusals are a password
/// over `u32::MAX` bytes and a salt under 8 or over `u32::MAX` bytes (its
/// `verify_inputs`), so a password within that length under the salt of 16
/// bytes is always hashed. The hash itself depends on the salt and is not
/// described.
#[verifier::external_body]
fn argon2_hash(password: &str, salt: &str) -> (r: Result<String, String>)
    ensures
        r matches Ok(h) ==> argon2_verifies(password@, h@),
        vstd::utf8::encode_utf8(password@).len() <= 0xFFFF_FFFF && (exists|b: Seq<u8>|
            b.len() == 16 && salt@ == b64_salt(b)) ==> r is Ok,
{
    let salt = argon2::password_hash::Salt::from_b64(salt).map_err(|e| e.to_string())?;
    argon2::Argon2::default()
        .hash_password(password.as_bytes(), salt)
        .map(|h| h.to_string())
        .map_err(|e| e.to_string())
}

/// `PasswordHash::new` then `Argon2::default().verify_password`, a parse
/// failure counting as a mismatch; the contract names the outcome.
#[verifier::external_body]
fn argon2_verify(password: &str, hash: &str) -> (ok: bool)
    ensures
        ok == argon2_verifies(password@, hash@),
{
    argon2::password_hash::PasswordHash::new(hash)
        .map(|parsed| argon2::Argon2::default().verify_password(password.as_bytes(), &parsed).is_ok())
        .unwrap_or(false)
}

/// `sha2::Sha256::digest`: the digest, 32 bytes long.
#[verifier::external_body]
fn sha256(data: &[u8]) -> (digest: Vec<u8>)
    ensures
        digest@ == sha256_digest(data@),
        digest@.len() == 32,
{
    sha2::Sha256::digest(data).to_vec()
}

/// `data_encoding::BASE64URL_NOPAD.encode`, which asserts that the input is at
/// most `usize::MAX / 512` bytes: named, made only of URL-safe base64
/// characters (RFC 4648 §5, no padding), `⌈8n / 6⌉` of them for `n` bytes.
#[verifier::external_body]
fn base64url_encode(data: &[u8]) -> (text: String)
    requires
        data@.len() <= usize::MAX / 512,
    ensures
        text@ == base64url_nopad(data@),
        text@.len() == (8 * data@.len() + 5) / 6,
        forall|i: int| 0 <= i < text@.len() ==> is_base64url_char(#[trigger] text@[i]),
{
    data_encoding::BASE64URL_NOPAD.encode(data)
}

/// The lowercase hexadecimal digit of `n < 16`.
pub open spec fn hex_digit(n: int) -> char {
    if n < 10 {
        ((48 + n) as u32) as char
    } else {
        ((87 + n) as u32) as char
    }
}

/// Two lowercase hexadecimal digits per byte.
pub open spec fn hex_lower(data: Seq<u8>) -> Seq<char>
    decreases data.len(),
{
    if data.len() == 0 {
        Seq::empty()
    } else {
        hex_lower(data.drop_last()) + seq![
            hex_digit(data.last() as int / 16),
            hex_digit(data.last() as int % 16),
        ]
    }
}

/// `data_encoding::HEXLOWER.encode`, which asserts that the input is at most
/// `usize::MAX / 512` bytes: each byte as two lowercase hex digits (RFC 4648
/// base16, lowercase).
#[verifier::external_body]
fn hexlower_encode(data: &[u8]) -> (text: String)
    requires
        data@.len() <= usize::MAX / 512,
    ensures
        text@ == hex_lower(data@),
{
    data_encoding::HEXLOWER.encode(data)
}

// ---------------------------------------------------------------------------
// Passwords
// ---------------------------------------------------------------------------

/// Hash a password with Argon2id under a fresh random salt. A hash it returns
/// verifies for the same password.
pub fn hash_password(password: &str) -> (r: Result<String, AppError>)
    ensures
        r matches Ok(h) ==> argon2_verifies(password@, h@),
        r matches Err(e) ==> e is Internal,
        vstd::utf8::encode_utf8(password@).len() <= 0xFFFF_FFFF ==> r is Ok,
{
    let salt_bytes = random_bytes(16);
    let salt = match encode_salt(salt_bytes.as_slice()) {
        Ok(s) => s,
        Err(e) => {
            let mut msg = String::from_str("salt: ");
            msg.append(e.as_str());
            return Err(AppError::Internal(msg));
        },
    };
    match argon2_hash(password, salt.as_str()) {
        Ok(h) => Ok(h),
        Err(e) => {
            let mut msg = String::from_str("hashing password: ");
            msg.append(e.as_str());
            Err(AppError::Internal(msg))
        },
    }
}

/// Whether `password` matches the stored hash; an unparsable hash never does.
pub fn verify_password(password: &str, hash: &str) -> (ok: bool)
    ensures
        ok == argon2_verifies(password@, hash@),
{
    argon2_verify(password, hash)
}

// ---------------------------------------------------------------------------
// Tokens
// ---------------------------------------------------------------------------

/// 32 random bytes, base64url — used for session cookies, CSRF, and API tokens.
pub fn random_token() -> (t: String)
    ensures
        exists|b: Seq<u8>| b.len() == 32 && t@ == base64url_nopad(b),
        t@.len() == 43,
        forall|i: int| 0 <= i < t@.len() ==> is_base64url_char(#[trigger] t@[i]),
{
    let bytes = random_bytes(32);
    base64url_encode(bytes.as_slice())
}

/// The stored form of a token: the lowercase hex of the SHA-256 of its UTF-8.
pub open spec fn token_hash_spec(token: Seq<char>) -> Seq<char> {
    hex_lower(sha256_digest(vstd::utf8::encode_utf8(token)))
}

/// Only SHA-256 digests of tokens are stored, so a leaked DB can't replay them.
pub fn token_hash(token: &str) -> (h: String)
    ensures
        h@ == token_hash_spec(token@),
{
    let bytes = token.as_bytes();
    let digest = sha256(bytes);
    hexlower_encode(digest.as_slice())
}

pub open spec fn api_token_prefix() -> Seq<char> {
    seq!['k', 's', 'n', '_']
}

/// A new API token: the `ksn_` prefix, then a random token.
pub fn new_api_token() -> (t: String)
    ensures
        t@.len() == 47,
        t@.take(4) == api_token_prefix(),
        exists|b: Seq<u8>| b.len() == 32 && t@.skip(4) == base64url_nopad(b),
        forall|i: int| 4 <= i < t@.len() ==> is_base64url_char(#[trigger] t@[i]),
{
    let tail = random_token();
    let mut t = String::new();
    push_char(&mut t, 'k');
    push_char(&mut t, 's');
    push_char(&mut t, 'n');
    push_char(&mut t, '_');
    t.append(tail.as_str());
    assert(t@.take(4) =~= api_token_prefix());
    assert(t@.skip(4) =~= tail@);
    assert forall|i: int| 4 <= i < t@.len() implies is_base64url_char(#[trigger] t@[i]) by {
        assert(t@[i] == tail@[i - 4]);
    }
    t
}

/// The 62 characters of uids: digits, then capitals, then small letters.
pub open spec fn uid_alphabet() -> Seq<char> {
    seq![
        '0', '1', '2', '3', '4', '5', '6', '7', '8', '9', 'A', 'B', 'C', 'D', 'E', 'F', 'G', 'H',
        'I', 'J', 'K', 'L', 'M', 'N', 'O', 'P', 'Q', 'R', 'S', 'T', 'U', 'V', 'W', 'X', 'Y', 'Z',
        'a', 'b', 'c', 'd', 'e', 'f', 'g', 'h', 'i', 'j', 'k', 'l', 'm', 'n', 'o', 'p', 'q', 'r',
        's', 't', 'u', 'v', 'w', 'x', 'y', 'z',
    ]
}

proof fn lemma_uid_alphabet()
    ensures
        uid_alphabet().len() == 62,
        forall|i: int| 0 <= i < 62 ==> is_uid_char_spec(#[trigger] uid_alphabet()[i]),
{
    let a = uid_alphabet();
    assert forall|i: int| 0 <= i < 62 implies is_uid_char_spec(#[trigger] a[i]) by {
        if i < 10 {
            assert(a[i] == ((48 + i) as u32) as char);
        } else if i < 36 {
            assert(a[i] == ((55 + i) as u32) as char);
        } else {
            assert(a[i] == ((61 + i) as u32) as char);
        }
    }
}

/// The uid spelled by alphabet indices.
pub open spec fn uid_of(ix: Seq<usize>) -> Seq<char> {
    ix.map_values(|i: usize| uid_alphabet()[i as int])
}

/// The uid for twelve drawn alphabet indices, each below 62.
pub fn uid_from_indices(ix: &Vec<usize>) -> (uid: String)
    requires
        ix@.len() == 12,
        forall|i: int| 0 <= i < 12 ==> #[trigger] ix@[i] < 62,
    ensures
        uid@ == uid_of(ix@),
        uid@.len() == 12,
        forall|i: int| 0 <= i < 12 ==> is_uid_char_spec(#[trigger] uid@[i]),
{
    let alphabet = vec![
        '0', '1', '2', '3', '4', '5', '6', '7', '8', '9', 'A', 'B', 'C', 'D', 'E', 'F', 'G', 'H',
        'I', 'J', 'K', 'L', 'M', 'N', 'O', 'P', 'Q', 'R', 'S', 'T', 'U', 'V', 'W', 'X', 'Y', 'Z',
        'a', 'b', 'c', 'd', 'e', 'f', 'g', 'h', 'i', 'j', 'k', 'l', 'm', 'n', 'o', 'p', 'q', 'r',
        's', 't', 'u', 'v', 'w', 'x', 'y', 'z',
    ];
    proof {
        lemma_uid_alphabet();
        assert(alphabet@ =~= uid_alphabet());
    }
    let mut uid = String::new();
    let mut k: usize = 0;
    while k < 12
        invariant
            k <= 12,
            ix@.len() == 12,
            forall|i: int| 0 <= i < 12 ==> #[trigger] ix@[i] < 62,
            alphabet@ == uid_alphabet(),
            uid@ == uid_of(ix@.take(k as int)),
        decreases 12 - k,
    {
        push_char(&mut uid, alphabet[ix[k]]);
        k += 1;
        assert(uid@ =~= uid_of(ix@.take(k as int)));
    }
    assert(ix@.take(12) =~= ix@);
    proof {
        lemma_uid_alphabet();
        assert forall|i: int| 0 <= i < 12 implies is_uid_char_spec(#[trigger] uid@[i]) by {
            assert(uid@[i] == uid_alphabet()[ix@[i] as int]);
        }
    }
    uid
}

/// 12-char base62 uid for memo/resource URLs: twelve random alphabet indices.
pub fn new_uid() -> (uid: String)
    ensures
        exists|ix: Seq<usize>|
            ix.len() == 12 && (forall|i: int| 0 <= i < 12 ==> #[trigger] ix[i] < 62) && uid@
                == uid_of(ix),
        uid@.len() == 12,
        forall|i: int| 0 <= i < 12 ==> is_uid_char_spec(#[trigger] uid@[i]),
{
    let mut ix: Vec<usize> = Vec::new();
    while ix.len() < 12
        invariant
            ix@.len() <= 12,
            forall|i: int| 0 <= i < ix@.len() ==> #[trigger] ix@[i] < 62,
        decreases 12 - ix@.len(),
    {
        ix.push(random_below(62));
    }
    uid_from_indices(&ix)
}

/// The text of a UUID: the bytes in lowercase hex, grouped 4-2-2-2-6 by hyphens.
pub open spec fn uuid_text(b: Seq<u8>) -> Seq<char> {
    hex_lower(b.subrange(0, 4)) + seq!['-'] + hex_lower(b.subrange(4, 6)) + seq!['-'] + hex_lower(
        b.subrange(6, 8),
    ) + seq!['-'] + hex_lower(b.subrange(8, 10)) + seq!['-'] + hex_lower(b.subrange(10, 16))
}

/// Sixteen bytes with the UUID version 4 and variant 1 bits set.
pub open spec fn is_v4_bytes(b: Seq<u8>) -> bool {
    b.len() == 16 && b[6] / 16 == 4 && 8 <= b[8] / 16 <= 11
}

fn hex_digit_of(n: u8) -> (c: char)
    requires
        n < 16,
    ensures
        c == hex_digit(n as int),
{
    if n < 10 {
        let b: u8 = 48 + n;
        b as char
    } else {
        let b: u8 = 87 + n;
        b as char
    }
}

/// Append the hex digits of `b[from..to]`.
fn push_hex(out: &mut String, b: &Vec<u8>, from: usize, to: usize)
    requires
        from <= to <= b@.len(),
    ensures
        final(out)@ == old(out)@ + hex_lower(b@.subrange(from as int, to as int)),
{
    let mut k = from;
    while k < to
        invariant
            from <= k <= to <= b@.len(),
            out@ == old(out)@ + hex_lower(b@.subrange(from as int, k as int)),
        decreases to - k,
    {
        let x = b[k];
        push_char(out, hex_digit_of(x / 16));
        push_char(out, hex_digit_of(x % 16));
        proof {
            let t = b@.subrange(from as int, k + 1);
            assert(t.drop_last() =~= b@.subrange(from as int, k as int));
        }
        k += 1;
    }
}

/// Drawn bytes made a version-4 UUID: the high nibble of byte 6 set to 4, the
/// top bits of byte 8 to `10` (variant 1).
pub open spec fn v4_bits(b: Seq<u8>) -> Seq<u8> {
    b.update(6, (b[6] & 0x0f) | 0x40).update(8, (b[8] & 0x3f) | 0x80)
}

/// The UUIDv4 text for sixteen drawn bytes.
pub fn uuid_from_bytes(drawn: &[u8]) -> (u: String)
    requires
        drawn@.len() == 16,
    ensures
        u@ == uuid_text(v4_bits(drawn@)),
        is_v4_bytes(v4_bits(drawn@)),
{
    let mut b: Vec<u8> = Vec::new();
    let mut k: usize = 0;
    while k < 16
        invariant
            k <= 16,
            drawn@.len() == 16,
            b@ == drawn@.take(k as int),
        decreases 16 - k,
    {
        b.push(drawn[k]);
        k += 1;
        assert(b@ =~= drawn@.take(k as int));
    }
    assert(drawn@.take(16) =~= drawn@);
    let x6 = b[6];
    let x8 = b[8];
    let b6 = (x6 & 0x0f) | 0x40;
    let b8 = (x8 & 0x3f) | 0x80;
    assert(((x6 & 0x0f) | 0x40) / 16 == 4) by (bit_vector);
    assert(8 <= ((x8 & 0x3f) | 0x80) / 16 <= 11) by (bit_vector);
    b.set(6, b6);
    b.set(8, b8);
    assert(b@ =~= v4_bits(drawn@));
    let mut u = String::new();
    push_hex(&mut u, &b, 0, 4);
    push_char(&mut u, '-');
    push_hex(&mut u, &b, 4, 6);
    push_char(&mut u, '-');
    push_hex(&mut u, &b, 6, 8);
    push_char(&mut u, '-');
    push_hex(&mut u, &b, 8, 10);
    push_char(&mut u, '-');
    push_hex(&mut u, &b, 10, 16);
    assert(u@ =~= uuid_text(b@));
    u
}

/// A random UUIDv4 string — the stable cross-instance identity stamped on each
/// note at creation so imports can dedup instead of duplicating.
pub fn new_uuid() -> (u: String)
    ensures
        exists|b: Seq<u8>| b.len() == 16 && u@ == uuid_text(v4_bits(b)) && is_v4_bytes(v4_bits(b)),
{
    let b = random_bytes(16);
    uuid_from_bytes(b.as_slice())
}

/// Byte-wise equality that does not stop at the first difference.
pub fn ct_eq(a: &[u8], b: &[u8]) -> (eq: bool)
    ensures
        eq == (a@ == b@),
{
    if a.len() != b.len() {
        return false;
    }
    let mut diff: u8 = 0;
    let mut k: usize = 0;
    assert(a@.take(0) =~= b@.take(0));
    while k < a.len()
        invariant
            k <= a@.len(),
            a@.len() == b@.len(),
            (diff == 0) == (a@.take(k as int) == b@.take(k as int)),
        decreases a.len() - k,
    {
        let x = a[k];
        let y = b[k];
        let d = diff;
        assert((((d | (x ^ y)) as u8) == 0) == (d == 0 && x == y)) by (bit_vector);
        diff = diff | (x ^ y);
        proof {
            if a@.take(k + 1) == b@.take(k + 1) {
                assert(a@.take(k as int) =~= a@.take(k + 1).take(k as int));
                assert(b@.take(k as int) =~= b@.take(k + 1).take(k as int));
                assert(a@.take(k + 1)[k as int] == b@.take(k + 1)[k as int]);
            }
            if d == 0 && x == y {
                assert(a@.take(k + 1) =~= a@.take(k as int).push(x));
                assert(b@.take(k + 1) =~= b@.take(k as int).push(y));
            }
        }
        k += 1;
    }
    assert(a@.take(a@.len() as int) =~= a@);
    assert(b@.take(b@.len() as int) =~= b@);
    diff == 0
}

/// String equality in time independent of where the strings differ.
pub fn constant_time_eq(a: &str, b: &str) -> (eq: bool)
    ensures
        eq == (a@ == b@),
{
    let r = ct_eq(a.as_bytes(), b.as_bytes());
    proof {
        vstd::utf8::encode_utf8_decode_utf8(a@);
        vstd::utf8::encode_utf8_decode_utf8(b@);
    }
    r
}

// ---------------------------------------------------------------------------
// Cookie helpers
// ---------------------------------------------------------------------------

pub open spec fn session_cookie_spec(token: Seq<char>, secure: bool, max_age_secs: i64) -> Seq<char> {
    let base = "ks_session="@ + token + "; Path=/; HttpOnly; SameSite=Lax; Max-Age="@ + int_decimal(
        max_age_secs as int,
    );
    if secure {
        base + "; Secure"@
    } else {
        base
    }
}

/// The `Set-Cookie` value of a session.
pub fn session_cookie(token: &str, secure: bool, max_age_secs: i64) -> (cookie: String)
    ensures
        cookie@ == session_cookie_spec(token@, secure, max_age_secs),
{
    let mut cookie = String::from_str("ks_session=");
    cookie.append(token);
    cookie.append("; Path=/; HttpOnly; SameSite=Lax; Max-Age=");
    let age = i64_text(max_age_secs);
    cookie.append(age.as_str());
    if secure {
        cookie.append("; Secure");
    }
    cookie
}

/// The `Set-Cookie` value that ends a session.
pub fn clear_session_cookie(secure: bool) -> (cookie: String)
    ensures
        cookie@ == session_cookie_spec(Seq::empty(), secure, 0),
{
    proof {
        reveal_strlit("");
        assert(""@ =~= Seq::<char>::empty());
    }
    session_cookie("", secure, 0)
}

/// End of the `;`-separated segment of a cookie header that starts at `i`.
pub open spec fn segment_end(s: Seq<char>, i: int) -> int
    decreases s.len() - i,
{
    if 0 <= i < s.len() && s[i] != ';' {
        segment_end(s, i + 1)
    } else {
        i
    }
}

pub proof fn lemma_segment_end(s: Seq<char>, i: int)
    requires
        0 <= i <= s.len(),
    ensures
        i <= segment_end(s, i) <= s.len(),
        forall|t: int| i <= t < segment_end(s, i) ==> #[trigger] s[t] != ';',
        segment_end(s, i) < s.len() ==> s[segment_end(s, i)] == ';',
    decreases s.len() - i,
{
    if 0 <= i < s.len() && s[i] != ';' {
        lemma_segment_end(s, i + 1);
    }
}

/// Index of the first `=` in `t`, if any.
pub open spec fn first_eq(t: Seq<char>, k: int) -> Option<int>
    decreases t.len() - k,
{
    if k < 0 || k >= t.len() {
        None
    } else if t[k] == '=' {
        Some(k)
    } else {
        first_eq(t, k + 1)
    }
}

/// The value of the cookie named `name` in a `Cookie` header, from the segment
/// starting at `i` on: each `;`-separated segment is trimmed and split at its
/// first `=`; the first whose key is `name` gives its value.
pub open spec fn cookie_from(s: Seq<char>, i: int, name: Seq<char>) -> Option<Seq<char>>
    decreases s.len() - i,
{
    if i < 0 || i > s.len() {
        None
    } else {
        let e = segment_end(s, i);
        let seg = trim_seq(s.subrange(i, e));
        let found = match first_eq(seg, 0) {
            Some(q) => if seg.subrange(0, q) == name {
                Some(seg.subrange(q + 1, seg.len() as int))
            } else {
                None
            },
            None => None,
        };
        if found is Some {
            found
        } else if e < s.len() {
            proof {
                lemma_segment_end(s, i);
            }
            cookie_from(s, e + 1, name)
        } else {
            None
        }
    }
}

proof fn lemma_first_eq(t: Seq<char>, k: int)
    requires
        0 <= k,
    ensures
        match first_eq(t, k) {
            Some(q) => k <= q < t.len() && t[q] == '=' && forall|x: int|
                k <= x < q ==> #[trigger] t[x] != '=',
            None => forall|x: int| k <= x < t.len() ==> #[trigger] t[x] != '=',
        },
    decreases t.len() - k,
{
    if k < t.len() && t[k] != '=' {
        lemma_first_eq(t, k + 1);
    }
}

/// The value of the cookie `name` in the request's `Cookie` header, given as
/// text (`None` when the header is missing or not visible ASCII).
pub fn cookie_from_headers(header: Option<&str>, name: &str) -> (value: Option<String>)
    ensures
        match header {
            None => value is None,
            Some(h) => match value {
                Some(v) => cookie_from(h@, 0, name@) == Some(v@),
                None => cookie_from(h@, 0, name@) is None,
            },
        },
{
    let h = match header {
        Some(h) => h,
        None => return None,
    };
    let v = chars_of(h);
    let nv = chars_of(name);
    let ghost s = v@;
    let mut i: usize = 0;
    loop
        invariant
            s == v@,
            s == h@,
            header == Some(h),
            nv@ == name@,
            i <= s.len(),
            cookie_from(s, 0, name@) == cookie_from(s, i as int, name@),
        decreases s.len() - i,
    {
        let mut e = i;
        proof {
            lemma_segment_end(s, i as int);
        }
        while e < v.len() && v[e] != ';'
            invariant
                s == v@,
                i <= e <= s.len(),
                segment_end(s, i as int) == segment_end(s, e as int),
            decreases s.len() - e,
        {
            e += 1;
        }
        let (a, b) = trim_bounds(&v, i, e);
        let ghost seg = s.subrange(a as int, b as int);
        let mut q = a;
        proof {
            lemma_first_eq(seg, 0);
        }
        while q < b && v[q] != '='
            invariant
                s == v@,
                a <= q <= b <= s.len(),
                seg == s.subrange(a as int, b as int),
                first_eq(seg, 0) == first_eq(seg, q - a),
            decreases b - q,
        {
            q += 1;
        }
        if q < b {
            assert(first_eq(seg, 0) == Some((q - a) as int));
            let key_len = q - a;
            let mut matches = key_len == nv.len();
            if matches {
                matches = matches_at(&v, a, &nv);
                assert(matches == (seg.subrange(0, (q - a) as int) == name@)) by {
                    assert(s.subrange(a as int, q as int) =~= seg.subrange(0, (q - a) as int));
                }
            } else {
                assert(seg.subrange(0, (q - a) as int).len() != name@.len());
            }
            if matches {
                let val = string_from_range(&v, q + 1, b);
                assert(val@ =~= seg.subrange((q - a) + 1, seg.len() as int));
                return Some(val);
            }
        } else {
            assert(first_eq(seg, 0) is None);
        }
        if e < v.len() {
            i = e + 1;
        } else {
            return None;
        }
    }
}

/// The token of a session cookie; an empty cookie counts as none.
pub fn session_token(cookie: Option<String>) -> (token: Option<String>)
    ensures
        match cookie {
            Some(c) => if c@.len() > 0 {
                token == Some(c)
            } else {
                token is None
            },
            None => token is None,
        },
{
    match cookie {
        Some(c) => {
            if str_eq(c.as_str(), "") {
                proof {
                    reveal_strlit("");
                }
                None
            } else {
                proof {
                    reveal_strlit("");
                    if c@.len() == 0 {
                        assert(c@ =~= ""@);
                    }
                }
                Some(c)
            }
        },
        None => None,
    }
}

// ---------------------------------------------------------------------------
// Request guards
// ---------------------------------------------------------------------------

#[derive(Debug, Clone)]
pub struct SessionUser {
    pub user: User,
    pub csrf_token: String,
}

/// For plain (non-htmx) form posts carrying `csrf_token` as a field.
pub fn require_csrf_field(session: &SessionUser, submitted: &str) -> (r: Result<(), AppError>)
    ensures
        r is Ok <==> submitted@ == session.csrf_token@,
        r matches Err(e) ==> e is Forbidden,
{
    if constant_time_eq(submitted, session.csrf_token.as_str()) {
        Ok(())
    } else {
        Err(AppError::Forbidden)
    }
}

/// The CSRF check of htmx requests: the `X-CSRF-Token` header (missing counts
/// as empty) must equal the session's token.
pub fn csrf_header_ok(header: Option<&str>, session: &SessionUser) -> (ok: bool)
    ensures
        ok == (match header {
            Some(h) => h@,
            None => ""@,
        } == session.csrf_token@),
{
    let h = match header {
        Some(h) => h,
        None => "",
    };
    constant_time_eq(h, session.csrf_token.as_str())
}

/// Admin-only pages: a non-admin session is refused.
pub fn require_admin(session: &SessionUser) -> (r: Result<(), AppError>)
    ensures
        r is Ok <==> session.user.role == crate::models::Role::Admin,
        r matches Err(e) ==> e is Forbidden,
{
    if session.user.is_admin() {
        Ok(())
    } else {
        Err(AppError::Forbidden)
    }
}

/// The API token of an `Authorization` header: `Bearer ` then the token,
/// trimmed, which must start with `ksn_`.
pub open spec fn bearer_token_spec(header: Seq<char>) -> Option<Seq<char>> {
    let prefix = "Bearer "@;
    if header.len() >= prefix.len() && header.take(prefix.len() as int) == prefix {
        let t = trim_seq(header.skip(prefix.len() as int));
        if t.len() >= 4 && t.take(4) == api_token_prefix() {
            Some(t)
        } else {
            None
        }
    } else {
        None
    }
}

/// API auth: `Authorization: Bearer ksn_…` only; cookies are deliberately
/// ignored, which is what lets `/api/v1/*` skip CSRF checks.
pub fn bearer_token(header: Option<&str>) -> (token: Option<String>)
    ensures
        match header {
            None => token is None,
            Some(h) => match token {
                Some(t) => bearer_token_spec(h@) == Some(t@),
                None => bearer_token_spec(h@) is None,
            },
        },
{
    let h = match header {
        Some(h) => h,
        None => return None,
    };
    let v = chars_of(h);
    let pv = chars_of("Bearer ");
    let ghost prefix = "Bearer "@;
    if !matches_at(&v, 0, &pv) {
        proof {
            if h@.len() >= prefix.len() && h@.take(prefix.len() as int) == prefix {
                assert(v@.subrange(0, pv@.len() as int) =~= h@.take(prefix.len() as int));
            }
        }
        return None;
    }
    assert(v@.subrange(0, pv@.len() as int) =~= h@.take(prefix.len() as int));
    let (a, b) = trim_bounds(&v, pv.len(), v.len());
    assert(v@.subrange(pv@.len() as int, v@.len() as int) =~= h@.skip(prefix.len() as int));
    let kv = vec!['k', 's', 'n', '_'];
    assert(kv@ =~= api_token_prefix());
    let t = string_from_range(&v, a, b);
    let tv = chars_of(t.as_str());
    if matches_at(&tv, 0, &kv) {
        assert(tv@.subrange(0, 4) =~= tv@.take(4));
        Some(t)
    } else {
        proof {
            if tv@.len() >= 4 && tv@.take(4) == api_token_prefix() {
                assert(tv@.subrange(0, 4) =~= tv@.take(4));
            }
        }
        None
    }
}

// ---------------------------------------------------------------------------
// Laws
// ---------------------------------------------------------------------------

proof fn lemma_hex_lower_chars(d: Seq<u8>)
    ensures
        hex_lower(d).len() == 2 * d.len(),
        forall|i: int| 0 <= i < hex_lower(d).len() ==> is_uuid_char_spec(#[trigger] hex_lower(d)[i]),
    decreases d.len(),
{
    if d.len() > 0 {
        lemma_hex_lower_chars(d.drop_last());
        let a = hex_lower(d.drop_last());
        let x = d.last() as int;
        let b = seq![hex_digit(x / 16), hex_digit(x % 16)];
        assert(hex_lower(d) == a + b);
        assert forall|i: int| 0 <= i < (a + b).len() implies is_uuid_char_spec(#[trigger] (a + b)[i]) by {
            if i >= a.len() {
                assert((a + b)[i] == b[i - a.len()]);
            }
        }
    }
}

/// A new note's link token resolves to that note: the text of any UUID is made
/// of uuid characters, so the references of `{{memo:UUID}}` are `[UUID]`.
pub proof fn lemma_uuid_link_round_trip(b: Seq<u8>)
    requires
        b.len() == 16,
    ensures
        crate::markdown::memo_refs(crate::markdown::memo_token(uuid_text(b))) == seq![uuid_text(b)],
{
    let u = uuid_text(b);
    lemma_hex_lower_chars(b.subrange(0, 4));
    lemma_hex_lower_chars(b.subrange(4, 6));
    lemma_hex_lower_chars(b.subrange(6, 8));
    lemma_hex_lower_chars(b.subrange(8, 10));
    lemma_hex_lower_chars(b.subrange(10, 16));
    let h0 = hex_lower(b.subrange(0, 4));
    let h1 = hex_lower(b.subrange(4, 6));
    let h2 = hex_lower(b.subrange(6, 8));
    let h3 = hex_lower(b.subrange(8, 10));
    let h4 = hex_lower(b.subrange(10, 16));
    let d = seq!['-'];
    assert(u == h0 + d + h1 + d + h2 + d + h3 + d + h4);
    assert forall|i: int| 0 <= i < u.len() implies crate::markdown::ref_char(true, #[trigger] u[i]) by {
        let l0 = h0.len() as int;
        let l1 = l0 + 1 + h1.len();
        let l2 = l1 + 1 + h2.len();
        let l3 = l2 + 1 + h3.len();
        if i < l0 {
            assert(u[i] == h0[i]);
        } else if i == l0 {
        } else if i < l1 {
            assert(u[i] == h1[i - l0 - 1]);
        } else if i == l1 {
        } else if i < l2 {
            assert(u[i] == h2[i - l1 - 1]);
        } else if i == l2 {
        } else if i < l3 {
            assert(u[i] == h3[i - l2 - 1]);
        } else if i == l3 {
        } else {
            assert(u[i] == h4[i - l3 - 1]);
        }
    }
    crate::markdown::lemma_token_round_trip(u, true);
    assert(crate::markdown::memo_token(u) == crate::markdown::ref_needle(true) + u
        + crate::markdown::close_braces());
}

/// An uploaded attachment's token resolves to it: a uid of `new_uid` (twelve
/// uid characters) reads back from `{{attach:UID}}`.
pub proof fn lemma_uid_attachment_round_trip(u: Seq<char>)
    requires
        u.len() == 12,
        forall|i: int| 0 <= i < 12 ==> is_uid_char_spec(#[trigger] u[i]),
    ensures
        crate::markdown::attachment_refs(crate::markdown::attach_token(u)) == seq![u],
{
    assert forall|i: int| 0 <= i < u.len() implies crate::markdown::ref_char(false, #[trigger] u[i]) by {
    }
    crate::markdown::lemma_token_round_trip(u, false);
    assert(crate::markdown::attach_token(u) == crate::markdown::ref_needle(false) + u
        + crate::markdown::close_braces());
}

/// A minted API token is accepted: `Authorization: Bearer <token>` gives the
/// token back for any `ksn_` token whose tail is URL-safe base64, as
/// `new_api_token` makes them.
pub proof fn lemma_minted_token_accepted(t: Seq<char>)
    requires
        t.len() >= 4,
        t.take(4) == api_token_prefix(),
        forall|i: int| 4 <= i < t.len() ==> is_base64url_char(#[trigger] t[i]),
    ensures
        bearer_token_spec("Bearer "@ + t) == Some(t),
{
    reveal_strlit("Bearer ");
    let h = "Bearer "@ + t;
    assert(h.take(7) =~= "Bearer "@);
    assert(h.skip(7) =~= t);
    assert(t[0] == 'k') by {
        assert(t.take(4)[0] == t[0]);
    }
    if t.len() > 4 {
        assert(is_base64url_char(t.last()));
    } else {
        assert(t.last() == t.take(4)[3]);
    }
    crate::text::lemma_trim_noop(t);
}

/// The session cookie reads back: a browser that sends `ks_session=<token>` (the
/// first segment of `session_cookie`'s value) presents the token it was given,
/// for any token of URL-safe base64 characters, as `random_token` makes them.
pub proof fn lemma_session_cookie_read_back(t: Seq<char>)
    requires
        forall|i: int| 0 <= i < t.len() ==> is_base64url_char(#[trigger] t[i]),
    ensures
        cookie_from("ks_session="@ + t, 0, "ks_session"@) == Some(t),
{
    reveal_strlit("ks_session=");
    reveal_strlit("ks_session");
    let h = "ks_session="@ + t;
    let name = "ks_session"@;
    assert forall|k: int| 0 <= k < h.len() implies #[trigger] h[k] != ';' by {
        if k >= 11 {
            assert(h[k] == t[k - 11]);
        }
    }
    lemma_segment_end(h, 0);
    assert(segment_end(h, 0) == h.len()) by {
        if segment_end(h, 0) < h.len() {
            assert(h[segment_end(h, 0)] == ';');
        }
    }
    assert(h.subrange(0, h.len() as int) =~= h);
    assert(h[0] == 'k');
    if t.len() > 0 {
        assert(h.last() == t.last());
    }
    crate::text::lemma_trim_noop(h);
    lemma_first_eq(h, 0);
    assert(h[10] == '=');
    assert forall|x: int| 0 <= x < 10 implies #[trigger] h[x] != '=' by {
        assert(h[x] == name[x]);
    }
    assert(first_eq(h, 0) == Some(10int));
    assert(h.subrange(0, 10) =~= name);
    assert(h.subrange(11, h.len() as int) =~= t);
}

} // verus!
