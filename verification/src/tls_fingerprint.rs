//! Browser-like TLS fingerprints: which cipher suites a preset offers and in
//! what order, and the short hash shown for a configuration.
use vstd::prelude::*;
use crate::text::{push_hex_fixed, hex_fixed, string_of};

verus! {

broadcast use vstd::string::group_string_axioms;

#[derive(Debug, Clone, Copy, PartialEq, Eq, Structural)]
pub enum TlsFingerprintPreset {
    Random,
    Chrome,
    Firefox,
    Safari,
    Default,
}

pub open spec fn preset_name(p: TlsFingerprintPreset) -> Seq<char> {
    match p {
        TlsFingerprintPreset::Random => "Random"@,
        TlsFingerprintPreset::Chrome => "Chrome"@,
        TlsFingerprintPreset::Firefox => "Firefox"@,
        TlsFingerprintPreset::Safari => "Safari"@,
        TlsFingerprintPreset::Default => "Default"@,
    }
}

impl TlsFingerprintPreset {
    /// The display name of the preset.
    pub fn to_string(&self) -> (s: String)
        ensures
            s@ == preset_name(*self),
    {
        match self {
            TlsFingerprintPreset::Random => String::from_str("Random"),
            TlsFingerprintPreset::Chrome => String::from_str("Chrome"),
            TlsFingerprintPreset::Firefox => String::from_str("Firefox"),
            TlsFingerprintPreset::Safari => String::from_str("Safari"),
            TlsFingerprintPreset::Default => String::from_str("Default"),
        }
    }
}

impl Default for TlsFingerprintPreset {
    fn default() -> (p: Self)
        ensures
            p == TlsFingerprintPreset::Default,
    {
        TlsFingerprintPreset::Default
    }
}

#[derive(Debug, Clone, Copy, PartialEq, Eq, Structural)]
pub struct TlsFingerprintConfig {
    pub enabled: bool,
    pub preset: TlsFingerprintPreset,
}

impl Default for TlsFingerprintConfig {
    fn default() -> (c: Self)
        ensures
            !c.enabled,
            c.preset == TlsFingerprintPreset::Default,
    {
        TlsFingerprintConfig { enabled: false, preset: TlsFingerprintPreset::Default }
    }
}

/// The cipher suites a preset can offer.
#[derive(Debug, Clone, Copy, PartialEq, Eq, Structural)]
pub enum CipherSuite {
    Tls13Aes128GcmSha256,
    Tls13Aes256GcmSha384,
    Tls13Chacha20Poly1305Sha256,
    EcdheEcdsaAes128GcmSha256,
    EcdheRsaAes128GcmSha256,
    EcdheEcdsaAes256GcmSha384,
    EcdheRsaAes256GcmSha384,
    EcdheEcdsaChacha20Poly1305Sha256,
    EcdheRsaChacha20Poly1305Sha256,
}

pub open spec fn tls13_suites() -> Seq<CipherSuite> {
    seq![
        CipherSuite::Tls13Aes128GcmSha256,
        CipherSuite::Tls13Aes256GcmSha384,
        CipherSuite::Tls13Chacha20Poly1305Sha256,
    ]
}

pub open spec fn tls12_suites() -> Seq<CipherSuite> {
    seq![
        CipherSuite::EcdheEcdsaAes128GcmSha256,
        CipherSuite::EcdheRsaAes128GcmSha256,
        CipherSuite::EcdheEcdsaAes256GcmSha384,
        CipherSuite::EcdheRsaAes256GcmSha384,
        CipherSuite::EcdheEcdsaChacha20Poly1305Sha256,
        CipherSuite::EcdheRsaChacha20Poly1305Sha256,
    ]
}

pub open spec fn chrome_order() -> Seq<CipherSuite> {
    seq![
        CipherSuite::Tls13Aes128GcmSha256,
        CipherSuite::Tls13Aes256GcmSha384,
        CipherSuite::Tls13Chacha20Poly1305Sha256,
        CipherSuite::EcdheEcdsaAes128GcmSha256,
        CipherSuite::EcdheRsaAes128GcmSha256,
        CipherSuite::EcdheEcdsaAes256GcmSha384,
        CipherSuite::EcdheRsaAes256GcmSha384,
        CipherSuite::EcdheEcdsaChacha20Poly1305Sha256,
        CipherSuite::EcdheRsaChacha20Poly1305Sha256,
    ]
}

pub open spec fn firefox_order() -> Seq<CipherSuite> {
    seq![
        CipherSuite::Tls13Aes128GcmSha256,
        CipherSuite::Tls13Chacha20Poly1305Sha256,
        CipherSuite::Tls13Aes256GcmSha384,
        CipherSuite::EcdheEcdsaAes128GcmSha256,
        CipherSuite::EcdheRsaAes128GcmSha256,
        CipherSuite::EcdheEcdsaChacha20Poly1305Sha256,
        CipherSuite::EcdheRsaChacha20Poly1305Sha256,
        CipherSuite::EcdheEcdsaAes256GcmSha384,
        CipherSuite::EcdheRsaAes256GcmSha384,
    ]
}

pub open spec fn safari_order() -> Seq<CipherSuite> {
    seq![
        CipherSuite::Tls13Aes128GcmSha256,
        CipherSuite::Tls13Aes256GcmSha384,
        CipherSuite::Tls13Chacha20Poly1305Sha256,
        CipherSuite::EcdheEcdsaAes256GcmSha384,
        CipherSuite::EcdheEcdsaAes128GcmSha256,
        CipherSuite::EcdheRsaAes256GcmSha384,
        CipherSuite::EcdheRsaAes128GcmSha256,
        CipherSuite::EcdheEcdsaChacha20Poly1305Sha256,
        CipherSuite::EcdheRsaChacha20Poly1305Sha256,
    ]
}

pub fn chrome_cipher_order() -> (r: Vec<CipherSuite>)
    ensures
        r@ == chrome_order(),
{
    let r = vec![
        CipherSuite::Tls13Aes128GcmSha256,
        CipherSuite::Tls13Aes256GcmSha384,
        CipherSuite::Tls13Chacha20Poly1305Sha256,
        CipherSuite::EcdheEcdsaAes128GcmSha256,
        CipherSuite::EcdheRsaAes128GcmSha256,
        CipherSuite::EcdheEcdsaAes256GcmSha384,
        CipherSuite::EcdheRsaAes256GcmSha384,
        CipherSuite::EcdheEcdsaChacha20Poly1305Sha256,
        CipherSuite::EcdheRsaChacha20Poly1305Sha256,
    ];
    assert(r@ =~= chrome_order());
    r
}

pub fn firefox_cipher_order() -> (r: Vec<CipherSuite>)
    ensures
        r@ == firefox_order(),
{
    let r = vec![
        CipherSuite::Tls13Aes128GcmSha256,
        CipherSuite::Tls13Chacha20Poly1305Sha256,
        CipherSuite::Tls13Aes256GcmSha384,
        CipherSuite::EcdheEcdsaAes128GcmSha256,
        CipherSuite::EcdheRsaAes128GcmSha256,
        CipherSuite::EcdheEcdsaChacha20Poly1305Sha256,
        CipherSuite::EcdheRsaChacha20Poly1305Sha256,
        CipherSuite::EcdheEcdsaAes256GcmSha384,
        CipherSuite::EcdheRsaAes256GcmSha384,
    ];
    assert(r@ =~= firefox_order());
    r
}

pub fn safari_cipher_order() -> (r: Vec<CipherSuite>)
    ensures
        r@ == safari_order(),
{
    let r = vec![
        CipherSuite::Tls13Aes128GcmSha256,
        CipherSuite::Tls13Aes256GcmSha384,
        CipherSuite::Tls13Chacha20Poly1305Sha256,
        CipherSuite::EcdheEcdsaAes256GcmSha384,
        CipherSuite::EcdheEcdsaAes128GcmSha256,
        CipherSuite::EcdheRsaAes256GcmSha384,
        CipherSuite::EcdheRsaAes128GcmSha256,
        CipherSuite::EcdheEcdsaChacha20Poly1305Sha256,
        CipherSuite::EcdheRsaChacha20Poly1305Sha256,
    ];
    assert(r@ =~= safari_order());
    r
}

/// `SliceRandom::shuffle` with the thread-local generator (rand 0.9): the
/// same suites in a random order.
#[verifier::external_body]
fn shuffle_suites(v: Vec<CipherSuite>) -> (r: Vec<CipherSuite>)
    ensures
        r@.to_multiset() == v@.to_multiset(),
{
    let mut v = v;
    rand::seq::SliceRandom::shuffle(v.as_mut_slice(), &mut rand::rng());
    v
}

/// A random order: the TLS 1.3 suites shuffled, then the TLS 1.2 suites
/// shuffled.
pub fn random_cipher_order() -> (r: Vec<CipherSuite>)
    ensures
        r@.len() == 9,
        r@.take(3).to_multiset() == tls13_suites().to_multiset(),
        r@.skip(3).to_multiset() == tls12_suites().to_multiset(),
{
    let tls13 = vec![
        CipherSuite::Tls13Aes128GcmSha256,
        CipherSuite::Tls13Aes256GcmSha384,
        CipherSuite::Tls13Chacha20Poly1305Sha256,
    ];
    assert(tls13@ =~= tls13_suites());
    let tls12 = vec![
        CipherSuite::EcdheEcdsaAes128GcmSha256,
        CipherSuite::EcdheRsaAes128GcmSha256,
        CipherSuite::EcdheEcdsaAes256GcmSha384,
        CipherSuite::EcdheRsaAes256GcmSha384,
        CipherSuite::EcdheEcdsaChacha20Poly1305Sha256,
        CipherSuite::EcdheRsaChacha20Poly1305Sha256,
    ];
    assert(tls12@ =~= tls12_suites());
    let a = shuffle_suites(tls13);
    let b = shuffle_suites(tls12);
    proof {
        a@.to_multiset_ensures();
        b@.to_multiset_ensures();
        tls13_suites().to_multiset_ensures();
        tls12_suites().to_multiset_ensures();
    }
    let mut all = a;
    let ghost first = all@;
    let mut i: usize = 0;
    while i < b.len()
        invariant
            i <= b@.len(),
            all@ == first + b@.take(i as int),
        decreases b.len() - i,
    {
        all.push(b[i]);
        i = i + 1;
        assert(all@ =~= first + b@.take(i as int));
    }
    proof {
        assert(b@.take(b@.len() as int) =~= b@);
        assert(all@.take(3) =~= first);
        assert(all@.skip(3) =~= b@);
    }
    all
}

/// The suites offered for a configuration, in order; `None` stands for the
/// crypto provider's default list.
pub open spec fn preset_order(c: TlsFingerprintConfig) -> Option<Seq<CipherSuite>> {
    if !c.enabled {
        None
    } else {
        match c.preset {
            TlsFingerprintPreset::Chrome => Some(chrome_order()),
            TlsFingerprintPreset::Firefox => Some(firefox_order()),
            TlsFingerprintPreset::Safari => Some(safari_order()),
            TlsFingerprintPreset::Random => None,
            TlsFingerprintPreset::Default => None,
        }
    }
}

/// The cipher suites to offer under a configuration, in order, or `None`
/// for the provider's defaults (fingerprinting disabled, or the default
/// preset). The random preset gives a fresh random order.
pub fn cipher_order(c: &TlsFingerprintConfig) -> (r: Option<Vec<CipherSuite>>)
    ensures
        c.enabled && c.preset == TlsFingerprintPreset::Random ==> (r matches Some(v) && v@.len() == 9
            && v@.take(3).to_multiset() == tls13_suites().to_multiset() && v@.skip(3).to_multiset()
            == tls12_suites().to_multiset()),
        !(c.enabled && c.preset == TlsFingerprintPreset::Random) ==> match preset_order(*c) {
            Some(o) => r matches Some(v) && v@ == o,
            None => r is None,
        },
{
    if !c.enabled {
        return None;
    }
    match c.preset {
        TlsFingerprintPreset::Chrome => Some(chrome_cipher_order()),
        TlsFingerprintPreset::Firefox => Some(firefox_cipher_order()),
        TlsFingerprintPreset::Safari => Some(safari_cipher_order()),
        TlsFingerprintPreset::Random => Some(random_cipher_order()),
        TlsFingerprintPreset::Default => None,
    }
}

// ---------------------------------------------------------------------------
// Fingerprint hash
// ---------------------------------------------------------------------------

/// FNV-1a (64 bits) of a byte string.
pub open spec fn fnv1a(b: Seq<u8>) -> u64
    decreases b.len(),
{
    if b.len() == 0 {
        0xcbf29ce484222325
    } else {
        (((fnv1a(b.drop_last()) ^ (b.last() as u64)) as int * 0x100000001b3) % 0x1_0000_0000_0000_0000) as u64
    }
}

/// The FNV-1a hash of the UTF-8 bytes of `input`, as 16 lower-case hex digits.
pub fn simple_hash(input: &str) -> (r: String)
    ensures
        r@ == hex_fixed(fnv1a(vstd::utf8::encode_utf8(input@)) as nat, 16),
{
    let bytes = input.as_bytes();
    let n = bytes.len();
    let mut hash: u64 = 0xcbf29ce484222325;
    let mut i: usize = 0;
    while i < n
        invariant
            i <= n == bytes@.len(),
            hash == fnv1a(bytes@.take(i as int)),
        decreases n - i,
    {
        assert(bytes@.take(i + 1).drop_last() =~= bytes@.take(i as int));
        hash = hash ^ (bytes[i] as u64);
        hash = hash.wrapping_mul(0x100000001b3);
        i = i + 1;
    }
    assert(bytes@.take(n as int) =~= bytes@);
    let mut out: Vec<char> = Vec::new();
    push_hex_fixed(&mut out, hash, 16);
    assert(out@ =~= hex_fixed(hash as nat, 16));
    string_of(&out)
}

/// Each byte as two lower-case hex digits.
pub open spec fn hex_bytes(b: Seq<u8>) -> Seq<char>
    decreases b.len(),
{
    if b.len() == 0 {
        Seq::empty()
    } else {
        hex_bytes(b.drop_last()) + hex_fixed(b.last() as nat, 2)
    }
}

pub fn encode_simple(bytes: &[u8]) -> (r: String)
    ensures
        r@ == hex_bytes(bytes@),
{
    let n = bytes.len();
    let mut out: Vec<char> = Vec::new();
    let mut i: usize = 0;
    while i < n
        invariant
            i <= n == bytes@.len(),
            out@ == hex_bytes(bytes@.take(i as int)),
        decreases n - i,
    {
        assert(bytes@.take(i + 1).drop_last() =~= bytes@.take(i as int));
        push_hex_fixed(&mut out, bytes[i] as u64, 2);
        i = i + 1;
    }
    assert(bytes@.take(n as int) =~= bytes@);
    string_of(&out)
}

/// 16 random bytes from the thread-local generator (`Rng::random`, rand 0.9).
/// Nothing is promised of their value.
#[verifier::external_body]
fn random_bytes16() -> (r: [u8; 16]) {
    rand::Rng::random(&mut rand::rng())
}

/// The label hashed for a preset.
pub open spec fn preset_label(p: TlsFingerprintPreset) -> Seq<char> {
    match p {
        TlsFingerprintPreset::Chrome => "chrome-default"@,
        TlsFingerprintPreset::Firefox => "firefox-default"@,
        TlsFingerprintPreset::Safari => "safari-default"@,
        TlsFingerprintPreset::Random => "random"@,
        TlsFingerprintPreset::Default => "system-default"@,
    }
}

/// A short fingerprint shown for a configuration: 32 random hex digits for
/// the enabled random preset, else the hash of the preset's label.
pub fn compute_fingerprint_hash(c: &TlsFingerprintConfig) -> (r: String)
    ensures
        c.enabled && c.preset == TlsFingerprintPreset::Random ==> r@.len() == 32 && exists|b: Seq<u8>|
            b.len() == 16 && r@ == hex_bytes(b),
        !(c.enabled && c.preset == TlsFingerprintPreset::Random) ==> r@ == hex_fixed(
            fnv1a(vstd::utf8::encode_utf8(preset_label(c.preset))) as nat,
            16,
        ),
{
    if c.enabled && c.preset == TlsFingerprintPreset::Random {
        let bytes = random_bytes16();
        let r = encode_simple(&bytes);
        proof {
            lemma_hex_bytes_len(bytes@);
        }
        r
    } else {
        let label = match c.preset {
            TlsFingerprintPreset::Chrome => "chrome-default",
            TlsFingerprintPreset::Firefox => "firefox-default",
            TlsFingerprintPreset::Safari => "safari-default",
            TlsFingerprintPreset::Random => "random",
            TlsFingerprintPreset::Default => "system-default",
        };
        simple_hash(label)
    }
}

pub proof fn lemma_hex_fixed_len(n: nat, w: nat)
    ensures
        hex_fixed(n, w).len() == w,
    decreases w,
{
    if w > 0 {
        lemma_hex_fixed_len(n / 16, (w - 1) as nat);
    }
}

pub proof fn lemma_hex_bytes_len(b: Seq<u8>)
    ensures
        hex_bytes(b).len() == 2 * b.len(),
    decreases b.len(),
{
    if b.len() > 0 {
        lemma_hex_bytes_len(b.drop_last());
        lemma_hex_fixed_len(b.last() as nat, 2);
    }
}

} // verus!
