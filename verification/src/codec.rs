//! Calls into outside crates that only compute: base64, HMAC-based
//! constant-time comparison, ChaCha20-Poly1305, SHA-256, URL parsing,
//! IP address parsing, randomness and the clock. Each is a trusted item
//! whose contract states what the crate's source or documentation shows.
use vstd::prelude::*;
use base64::Engine;

verus! {

/// What `base64::engine::general_purpose::STANDARD.decode` gives for the
/// UTF-8 bytes of a string: STANDARD requires canonical padding and no
/// trailing bits, so it accepts exactly the texts that encode some bytes,
/// and gives those bytes; anything else is a decode error (`None`).
pub open spec fn base64_decoded(s: Seq<char>) -> Option<Seq<u8>> {
    if exists|b: Seq<u8>| base64_encoded(b) == s {
        Some(choose|b: Seq<u8>| base64_encoded(b) == s)
    } else {
        None
    }
}

/// The character of a 6-bit value in the standard base64 alphabet.
pub open spec fn base64_char(v: nat) -> char {
    if v < 26 {
        ((v + 65) as u8) as char
    } else if v < 52 {
        ((v + 71) as u8) as char
    } else if v < 62 {
        ((v - 4) as u8) as char
    } else if v == 62 {
        '+'
    } else {
        '/'
    }
}

/// What `base64::engine::general_purpose::STANDARD.encode` gives for bytes:
/// each group of three bytes as four characters of six bits each, most
/// significant first; a last group of one or two bytes padded with `=` to
/// four characters.
pub open spec fn base64_encoded(b: Seq<u8>) -> Seq<char>
    decreases b.len(),
{
    if b.len() == 0 {
        Seq::empty()
    } else if b.len() == 1 {
        seq![base64_char((b[0] / 4) as nat), base64_char(((b[0] % 4) * 16) as nat), '=', '=']
    } else if b.len() == 2 {
        seq![
            base64_char((b[0] / 4) as nat),
            base64_char(((b[0] % 4) * 16 + b[1] / 16) as nat),
            base64_char(((b[1] % 16) * 4) as nat),
            '=',
        ]
    } else {
        seq![
            base64_char((b[0] / 4) as nat),
            base64_char(((b[0] % 4) * 16 + b[1] / 16) as nat),
            base64_char(((b[1] % 16) * 4 + b[2] / 64) as nat),
            base64_char((b[2] % 64) as nat),
        ] + base64_encoded(b.skip(3))
    }
}

/// `STANDARD.decode(s)` (base64 0.22): the result is the named decoding of `s`.
#[verifier::external_body]
pub(crate) fn base64_decode(s: &str) -> (r: Option<Vec<u8>>)
    ensures
        match base64_decoded(s@) {
            Some(b) => r matches Some(v) && v@ == b,
            None => r is None,
        },
{
    base64::engine::general_purpose::STANDARD.decode(s).ok()
}

/// A character of the standard base64 alphabet, padding included.
pub open spec fn is_base64_char(c: char) -> bool {
    ('A' <= c <= 'Z') || ('a' <= c <= 'z') || ('0' <= c <= '9') || c == '+' || c == '/' || c
        == '='
}

proof fn lemma_base64_char(v: nat, w: nat)
    requires
        v < 64,
        w < 64,
    ensures
        base64_char(v) != '=',
        base64_char(v) == base64_char(w) ==> v == w,
{
    if v < 26 {
        assert((base64_char(v) as u32) == v + 65);
    } else if v < 52 {
        assert((base64_char(v) as u32) == v + 71);
    } else if v < 62 {
        assert((base64_char(v) as u32) == v - 4);
    }
    if w < 26 {
        assert((base64_char(w) as u32) == w + 65);
    } else if w < 52 {
        assert((base64_char(w) as u32) == w + 71);
    } else if w < 62 {
        assert((base64_char(w) as u32) == w - 4);
    }
}

/// Bytes are recovered from the sextets that encode them.
proof fn lemma_sextets(x0: u8, x1: u8, y0: u8, y1: u8)
    requires
        x0 / 4 == y0 / 4,
        (x0 % 4) * 16 + x1 / 16 == (y0 % 4) * 16 + y1 / 16,
    ensures
        x0 == y0,
        x1 / 16 == y1 / 16,
{
    assert(x0 == 4 * (x0 / 4) + x0 % 4);
    assert(y0 == 4 * (y0 / 4) + y0 % 4);
}

proof fn lemma_sextets2(x1: u8, x2: u8, y1: u8, y2: u8)
    requires
        x1 / 16 == y1 / 16,
        (x1 % 16) * 4 + x2 / 64 == (y1 % 16) * 4 + y2 / 64,
        x2 % 64 == y2 % 64,
    ensures
        x1 == y1,
        x2 == y2,
{
    assert(x1 == 16 * (x1 / 16) + x1 % 16);
    assert(y1 == 16 * (y1 / 16) + y1 % 16);
    assert(x2 == 64 * (x2 / 64) + x2 % 64);
    assert(y2 == 64 * (y2 / 64) + y2 % 64);
}

/// Different bytes encode to different texts, so decoding an encoding gives
/// the encoded bytes back.
pub proof fn lemma_base64_injective(a: Seq<u8>, b: Seq<u8>)
    requires
        base64_encoded(a) == base64_encoded(b),
    ensures
        a == b,
    decreases a.len(),
{
    let e = base64_encoded(a);
    if a.len() == 0 || b.len() == 0 {
        if a.len() > 0 || b.len() > 0 {
            assert(e.len() == 0);
            if a.len() > 2 {
                assert(base64_encoded(a).len() >= 4);
            }
            if b.len() > 2 {
                assert(base64_encoded(b).len() >= 4);
            }
        }
        assert(a =~= b);
        return;
    }
    // the first four characters hold the first group
    let c0 = |x: Seq<u8>| (x[0] / 4) as nat;
    lemma_base64_char(c0(a), c0(b));
    assert(e[0] == base64_char(c0(a)) && e[0] == base64_char(c0(b)));
    let ca1: nat = if a.len() == 1 { ((a[0] % 4) * 16) as nat } else { ((a[0] % 4) * 16 + a[1] / 16) as nat };
    let cb1: nat = if b.len() == 1 { ((b[0] % 4) * 16) as nat } else { ((b[0] % 4) * 16 + b[1] / 16) as nat };
    lemma_base64_char(ca1, cb1);
    assert(e[1] == base64_char(ca1) && e[1] == base64_char(cb1));
    let ca2: nat = if a.len() == 2 { ((a[1] % 16) * 4) as nat } else if a.len() > 2 { ((a[1] % 16) * 4 + a[2] / 64) as nat } else { 0 };
    let cb2: nat = if b.len() == 2 { ((b[1] % 16) * 4) as nat } else if b.len() > 2 { ((b[1] % 16) * 4 + b[2] / 64) as nat } else { 0 };
    lemma_base64_char(ca2, cb2);
    let ca3: nat = if a.len() > 2 { (a[2] % 64) as nat } else { 0 };
    let cb3: nat = if b.len() > 2 { (b[2] % 64) as nat } else { 0 };
    lemma_base64_char(ca3, cb3);
    // the padding tells the group's size
    assert((a.len() == 1) == (b.len() == 1)) by {
        if a.len() == 1 && b.len() >= 2 {
            assert(e[2] == '=');
        }
        if b.len() == 1 && a.len() >= 2 {
            assert(e[2] == '=');
        }
    }
    assert((a.len() == 2) == (b.len() == 2)) by {
        if a.len() == 2 && b.len() > 2 {
            assert(e[3] == '=');
        }
        if b.len() == 2 && a.len() > 2 {
            assert(e[3] == '=');
        }
    }
    if a.len() == 1 {
        assert(a[0] == b[0]) by {
            assert(a[0] == 4 * (a[0] / 4) + a[0] % 4);
            assert(b[0] == 4 * (b[0] / 4) + b[0] % 4);
        }
        assert(a =~= b);
    } else if a.len() == 2 {
        lemma_sextets(a[0], a[1], b[0], b[1]);
        assert(e[2] == base64_char(ca2) && e[2] == base64_char(cb2));
        assert(a[1] == b[1]) by {
            assert(a[1] == 16 * (a[1] / 16) + a[1] % 16);
            assert(b[1] == 16 * (b[1] / 16) + b[1] % 16);
        }
        assert(a =~= b);
    } else {
        lemma_sextets(a[0], a[1], b[0], b[1]);
        assert(e[2] == base64_char(ca2) && e[2] == base64_char(cb2));
        assert(e[3] == base64_char(ca3) && e[3] == base64_char(cb3));
        lemma_sextets2(a[1], a[2], b[1], b[2]);
        assert(base64_encoded(a.skip(3)) =~= e.skip(4));
        assert(base64_encoded(b.skip(3)) =~= e.skip(4));
        lemma_base64_injective(a.skip(3), b.skip(3));
        assert(a =~= a.take(3) + a.skip(3));
        assert(b =~= b.take(3) + b.skip(3));
        assert(a.take(3) =~= b.take(3));
    }
}

/// Decoding what encoding `b` gives yields `b`.
pub proof fn lemma_decode_encoded(b: Seq<u8>)
    ensures
        base64_decoded(base64_encoded(b)) == Some(b),
{
    let s = base64_encoded(b);
    assert(exists|x: Seq<u8>| base64_encoded(x) == s);
    let c = choose|x: Seq<u8>| base64_encoded(x) == s;
    lemma_base64_injective(c, b);
}

/// `STANDARD.encode(b)` (base64 0.22): the standard padded encoding of `b`,
/// which standard padded base64 decodes back to the bytes it encodes.
#[verifier::external_body]
pub(crate) fn base64_encode(b: &[u8]) -> (r: String)
    requires
        b@.len() <= usize::MAX / 4,
    ensures
        r@ == base64_encoded(b@),
        forall|i: int| 0 <= i < r@.len() ==> is_base64_char(#[trigger] r@[i]),
{
    base64::engine::general_purpose::STANDARD.encode(b)
}


/// What HMAC-SHA256 (`hmac::Hmac<sha2::Sha256>`) gives for a key and a message.
pub uninterp spec fn hmac_sha256(key: Seq<u8>, msg: Seq<u8>) -> Seq<u8>;

/// HMAC-SHA256 of `msg` under `key` (hmac 0.12, sha2 0.10). `new_from_slice`
/// accepts keys of any length, so it does not fail. The digest is named.
#[verifier::external_body]
pub(crate) fn hmac_sha256_digest(key: &[u8], msg: &[u8]) -> (r: Vec<u8>)
    ensures
        r@ == hmac_sha256(key@, msg@),
{
    let mut mac = <hmac::Hmac<sha2::Sha256> as hmac::Mac>::new_from_slice(key).expect(
        "HMAC accepts any key size",
    );
    hmac::Mac::update(&mut mac, msg);
    hmac::Mac::finalize(mac).into_bytes().to_vec()
}

/// `subtle::ConstantTimeEq::ct_eq` on byte slices: true exactly when the
/// slices are equal (lengths first, then all bytes).
#[verifier::external_body]
pub(crate) fn ct_eq_bytes(a: &[u8], b: &[u8]) -> (r: bool)
    ensures
        r == (a@ == b@),
{
    subtle::ConstantTimeEq::ct_eq(a, b).into()
}

/// 32 random bytes from the thread-local generator (`rand::random`).
/// Nothing is promised of their value.
#[verifier::external_body]
pub(crate) fn random_key() -> (r: [u8; 32]) {
    rand::random()
}

/// What ChaCha20-Poly1305 (`chacha20poly1305::ChaCha20Poly1305`, no
/// associated data) gives when sealing `plain` under a 32-byte key and a
/// 12-byte nonce: the ciphertext followed by its tag, or `None` when the
/// crate refuses the message.
pub uninterp spec fn aead_sealed(key: Seq<u8>, nonce: Seq<u8>, plain: Seq<u8>) -> Option<Seq<u8>>;

/// What ChaCha20-Poly1305 gives when opening `ct` under a key and a nonce:
/// the plaintext, or `None` when the tag does not verify.
pub uninterp spec fn aead_opened(key: Seq<u8>, nonce: Seq<u8>, ct: Seq<u8>) -> Option<Seq<u8>>;

/// `ChaCha20Poly1305::new(key)` (`KeyInit::new`, on the 32-byte key) then
/// `encrypt(nonce, plain)` (chacha20poly1305 0.10, aead 0.5). The
/// result is named; it is the ciphertext (as long as the plaintext) followed
/// by the 16-byte Poly1305 tag, and it opens again, under the same key and
/// nonce, to the same plaintext.
#[verifier::external_body]
pub(crate) fn aead_seal(key: &[u8; 32], nonce: &[u8; 12], plain: &[u8]) -> (r: Option<Vec<u8>>)
    ensures
        match aead_sealed(key@, nonce@, plain@) {
            Some(ct) => r matches Some(v) && v@ == ct && ct.len() == plain@.len() + 16
                && aead_opened(key@, nonce@, ct) == Some(plain@),
            None => r is None,
        },
{
    let cipher = <chacha20poly1305::ChaCha20Poly1305 as chacha20poly1305::KeyInit>::new(key.into());
    chacha20poly1305::aead::Aead::encrypt(&cipher, nonce.into(), plain).ok()
}

/// `ChaCha20Poly1305::new(key)` (`KeyInit::new`) then `decrypt(nonce, ct)`
/// (chacha20poly1305 0.10). The result is named.
#[verifier::external_body]
pub(crate) fn aead_open(key: &[u8; 32], nonce: &[u8; 12], ct: &[u8]) -> (r: Option<Vec<u8>>)
    ensures
        match aead_opened(key@, nonce@, ct@) {
            Some(p) => r matches Some(v) && v@ == p,
            None => r is None,
        },
{
    let cipher = <chacha20poly1305::ChaCha20Poly1305 as chacha20poly1305::KeyInit>::new(key.into());
    chacha20poly1305::aead::Aead::decrypt(&cipher, nonce.into(), ct).ok()
}

/// 12 random bytes from the thread-local generator (`rand::random`), used
/// as a nonce. Nothing is promised of their value.
#[verifier::external_body]
pub(crate) fn random_nonce() -> (r: [u8; 12]) {
    rand::random()
}

/// What `uuid::Uuid::parse_str` gives for a string: the 128-bit value, or
/// `None` when the text is not a UUID.
pub uninterp spec fn uuid_parsed(s: Seq<char>) -> Option<u128>;

/// What `Uuid::from_u128(id).to_string()` gives: the 32 lower-case hex
/// digits of `id`, most significant first, in groups of 8, 4, 4, 4 and 12
/// joined by hyphens.
pub open spec fn uuid_text(id: u128) -> Seq<char> {
    let h = crate::text::hex_fixed(id as nat, 32);
    h.subrange(0, 8) + seq!['-'] + h.subrange(8, 12) + seq!['-'] + h.subrange(12, 16) + seq!['-'] + h.subrange(
        16,
        20,
    ) + seq!['-'] + h.subrange(20, 32)
}

/// `Uuid::parse_str(s)` (uuid 1): the named value. It accepts the
/// hyphenated form that `to_string` writes.
#[verifier::external_body]
pub(crate) fn parse_uuid(s: &str) -> (r: Option<u128>)
    ensures
        r == uuid_parsed(s@),
{
    uuid::Uuid::parse_str(s).ok().map(|u| u.as_u128())
}

/// `Uuid::from_u128(id).to_string()` (uuid 1): the hyphenated lower-case
/// hex form, which `parse_str` reads back to `id`.
#[verifier::external_body]
pub(crate) fn uuid_to_string(id: u128) -> (r: String)
    ensures
        r@ == uuid_text(id),
        uuid_parsed(r@) == Some(id),
{
    uuid::Uuid::from_u128(id).to_string()
}

/// `Uuid::new_v4().as_u128()`: a random identifier. Nothing is promised of it.
#[verifier::external_body]
pub(crate) fn new_uuid() -> (r: u128) {
    uuid::Uuid::new_v4().as_u128()
}

/// Seconds since the Unix epoch from the system clock (`SystemTime::now`),
/// 0 when the clock reads earlier. Nothing is promised of the value.
#[verifier::external_body]
pub(crate) fn unix_now_secs() -> (r: u64) {
    std::time::SystemTime::now().duration_since(std::time::UNIX_EPOCH).map_or(0, |d| d.as_secs())
}

} // verus!
