//! Passwords at rest: ChaCha20-Poly1305 under a 32-byte key, stored as the
//! base64 of the 12-byte nonce followed by the ciphertext. The key itself is
//! read from (or written to) the configuration directory by the caller.
use vstd::prelude::*;
use crate::codec::{
    aead_seal, aead_open, aead_sealed, aead_opened, base64_encode, base64_decode, base64_encoded,
    base64_decoded, is_base64_char, random_nonce,
};
use crate::text::{trim, trim_str, string_from_utf8, is_ws, lemma_trim_no_ws};

verus! {

broadcast use vstd::string::group_string_axioms;

/// Length of the nonce in front of the ciphertext.
pub const NONCE_LEN: usize = 12;

#[derive(Debug, Clone, Copy, PartialEq, Eq, Structural)]
pub enum CredError {
    /// The cipher refused the message.
    Encrypt,
    /// The stored text is not base64.
    Base64,
    /// Fewer bytes than a nonce.
    InvalidPayload,
    /// Wrong key or corrupted payload.
    Decrypt,
    /// The decrypted bytes are not UTF-8.
    Utf8,
}

/// The UTF-8 bytes of a text.
pub open spec fn utf8_bytes(s: Seq<char>) -> Seq<u8> {
    vstd::utf8::encode_utf8(s)
}

/// The stored form of `plain` sealed under `key` with `nonce`.
pub open spec fn stored_password(key: Seq<u8>, nonce: Seq<u8>, plain: Seq<char>) -> Option<Seq<char>> {
    match aead_sealed(key, nonce, utf8_bytes(plain)) {
        Some(ct) => Some(base64_encoded(nonce + ct)),
        None => None,
    }
}

/// What reading back a stored password gives.
pub open spec fn read_password(key: Seq<u8>, stored: Seq<char>) -> Result<Seq<char>, CredError> {
    match base64_decoded(trim(stored)) {
        None => Err(CredError::Base64),
        Some(b) => if b.len() < NONCE_LEN {
            Err(CredError::InvalidPayload)
        } else {
            match aead_opened(key, b.take(NONCE_LEN as int), b.skip(NONCE_LEN as int)) {
                None => Err(CredError::Decrypt),
                Some(p) => if vstd::utf8::valid_utf8(p) {
                    Ok(vstd::utf8::decode_utf8(p))
                } else {
                    Err(CredError::Utf8)
                },
            }
        },
    }
}

/// Seal `plain` under `key` with the given nonce.
pub fn encrypt_password_with_nonce(key: &[u8; 32], nonce: &[u8; 12], plain: &str) -> (r: Result<String, CredError>)
    requires
        utf8_bytes(plain@).len() + NONCE_LEN + 16 <= usize::MAX / 4,
    ensures
        match stored_password(key@, nonce@, plain@) {
            Some(t) => r matches Ok(s) && s@ == t,
            None => r == Err::<String, CredError>(CredError::Encrypt),
        },
        r matches Ok(s) ==> read_password(key@, s@) == Ok::<Seq<char>, CredError>(plain@),
{
    let pb = plain.as_bytes();
    proof {
        assert(pb@ == utf8_bytes(plain@));
    }
    match aead_seal(key, nonce, pb) {
        None => Err(CredError::Encrypt),
        Some(ct) => {
            let mut out: Vec<u8> = Vec::new();
            let mut i: usize = 0;
            while i < NONCE_LEN
                invariant
                    i <= NONCE_LEN,
                    nonce@.len() == NONCE_LEN,
                    out@ == nonce@.take(i as int),
                decreases NONCE_LEN - i,
            {
                out.push(nonce[i]);
                i = i + 1;
                assert(out@ =~= nonce@.take(i as int));
            }
            let n = ct.len();
            let mut j: usize = 0;
            while j < n
                invariant
                    j <= n == ct@.len(),
                    nonce@.len() == NONCE_LEN,
                    out@ == nonce@ + ct@.take(j as int),
                decreases n - j,
            {
                out.push(ct[j]);
                j = j + 1;
                assert(out@ =~= nonce@ + ct@.take(j as int));
            }
            assert(ct@.take(n as int) =~= ct@);
            assert(out@.len() == NONCE_LEN + utf8_bytes(plain@).len() + 16);
            let s = base64_encode(&out);
            proof {
                let b = nonce@ + ct@;
                assert(out@ == b);
                crate::codec::lemma_decode_encoded(b);
                lemma_trim_no_ws(s@);
                assert(b.take(NONCE_LEN as int) =~= nonce@);
                assert(b.skip(NONCE_LEN as int) =~= ct@);
                vstd::utf8::encode_utf8_valid_utf8(plain@);
                vstd::utf8::encode_utf8_decode_utf8(plain@);
            }
            Ok(s)
        },
    }
}

/// Seal `plain` under `key` with a nonce freshly drawn from the thread-local
/// random generator for this call: the result is the stored form for that
/// nonce (base64 of the nonce followed by the ciphertext and its tag), or
/// `Encrypt` when the cipher refuses. Whatever nonce is drawn, what is
/// stored reads back to `plain` under the same key.
pub fn encrypt_password(key: &[u8; 32], plain: &str) -> (r: Result<String, CredError>)
    requires
        utf8_bytes(plain@).len() + NONCE_LEN + 16 <= usize::MAX / 4,
    ensures
        exists|n: Seq<u8>| n.len() == NONCE_LEN && match stored_password(key@, n, plain@) {
            Some(t) => r matches Ok(s) && s@ == t,
            None => r == Err::<String, CredError>(CredError::Encrypt),
        },
        r matches Ok(s) ==> read_password(key@, s@) == Ok::<Seq<char>, CredError>(plain@),
        r matches Ok(s) ==> exists|nonce: Seq<u8>| nonce.len() == NONCE_LEN && stored_password(key@, nonce, plain@)
            == Some(s@),
        r matches Err(e) ==> e == CredError::Encrypt,
{
    let nonce = random_nonce();
    let r = encrypt_password_with_nonce(key, &nonce, plain);
    proof {
        assert(nonce@.len() == NONCE_LEN);
        assert(match stored_password(key@, nonce@, plain@) {
            Some(t) => r matches Ok(s) && s@ == t,
            None => r == Err::<String, CredError>(CredError::Encrypt),
        });
    }
    r
}

/// Read back a stored password: base64 of nonce and ciphertext, surrounding
/// whitespace ignored.
pub fn decrypt_password(key: &[u8; 32], encoded: &str) -> (r: Result<String, CredError>)
    ensures
        match read_password(key@, encoded@) {
            Ok(p) => r matches Ok(s) && s@ == p,
            Err(e) => r == Err::<String, CredError>(e),
        },
{
    let t = trim_str(encoded);
    let bytes = match base64_decode(t.as_str()) {
        None => return Err(CredError::Base64),
        Some(b) => b,
    };
    if bytes.len() < NONCE_LEN {
        return Err(CredError::InvalidPayload);
    }
    let mut nonce: [u8; 12] = [0u8; 12];
    let mut i: usize = 0;
    while i < NONCE_LEN
        invariant
            i <= NONCE_LEN <= bytes@.len(),
            nonce@.len() == NONCE_LEN,
            forall|k: int| 0 <= k < i ==> nonce@[k] == bytes@[k],
        decreases NONCE_LEN - i,
    {
        nonce[i] = bytes[i];
        i = i + 1;
    }
    assert(nonce@ =~= bytes@.take(NONCE_LEN as int));
    let mut ct: Vec<u8> = Vec::new();
    let n = bytes.len();
    let mut j: usize = NONCE_LEN;
    while j < n
        invariant
            NONCE_LEN <= j <= n == bytes@.len(),
            ct@ == bytes@.subrange(NONCE_LEN as int, j as int),
        decreases n - j,
    {
        ct.push(bytes[j]);
        j = j + 1;
        assert(ct@ =~= bytes@.subrange(NONCE_LEN as int, j as int));
    }
    assert(ct@ =~= bytes@.skip(NONCE_LEN as int));
    match aead_open(key, &nonce, &ct) {
        None => Err(CredError::Decrypt),
        Some(p) => match string_from_utf8(&p) {
            None => Err(CredError::Utf8),
            Some(s) => Ok(s),
        },
    }
}


// ---------------------------------------------------------------------------
// The key file
// ---------------------------------------------------------------------------

/// The prefix of a key file whose key is protected by the Windows data
/// protection API.
pub open spec fn dpapi_magic() -> Seq<u8> {
    seq![68u8, 80u8, 65u8, 80u8, 73u8]
}

/// What a key file holds.
#[derive(Debug)]
pub enum KeyFile {
    /// A protected key (Windows): these bytes are to be unprotected.
    Protected(Vec<u8>),
    /// The key itself, its first 32 bytes.
    Plain([u8; 32]),
    /// No usable key: a new one is made and saved.
    Unusable,
}

/// Read the bytes of a key file; `windows` tells whether the protected
/// form is understood.
pub open spec fn key_file_of(b: Seq<u8>, windows: bool) -> KeyFileView {
    if windows && dpapi_magic().is_prefix_of(b) && b.len() > 5 {
        KeyFileView::Protected(b.skip(5))
    } else if b.len() >= 32 {
        KeyFileView::Plain(b.take(32))
    } else {
        KeyFileView::Unusable
    }
}

/// The value of a [`KeyFile`].
pub enum KeyFileView {
    Protected(Seq<u8>),
    Plain(Seq<u8>),
    Unusable,
}

pub open spec fn key_file_view(k: KeyFile) -> KeyFileView {
    match k {
        KeyFile::Protected(v) => KeyFileView::Protected(v@),
        KeyFile::Plain(a) => KeyFileView::Plain(a@),
        KeyFile::Unusable => KeyFileView::Unusable,
    }
}

pub fn read_key_file(b: &[u8], windows: bool) -> (r: KeyFile)
    ensures
        key_file_view(r) == key_file_of(b@, windows),
{
    let n = b.len();
    if windows && n > 5 && b[0] == 68 && b[1] == 80 && b[2] == 65 && b[3] == 80 && b[4] == 73 {
        assert(b@.subrange(0, 5) =~= dpapi_magic());
        let mut v: Vec<u8> = Vec::new();
        let mut i: usize = 5;
        while i < n
            invariant
                5 <= i <= n == b@.len(),
                v@ == b@.subrange(5, i as int),
            decreases n - i,
        {
            v.push(b[i]);
            i = i + 1;
            assert(v@ =~= b@.subrange(5, i as int));
        }
        assert(v@ =~= b@.skip(5));
        return KeyFile::Protected(v);
    }
    assert(!(windows && dpapi_magic().is_prefix_of(b@) && b@.len() > 5)) by {
        if windows && dpapi_magic().is_prefix_of(b@) && b@.len() > 5 {
            assert(b@.subrange(0, 5) == dpapi_magic());
            assert(b@[0] == b@.subrange(0, 5)[0]);
            assert(b@[1] == b@.subrange(0, 5)[1]);
            assert(b@[2] == b@.subrange(0, 5)[2]);
            assert(b@[3] == b@.subrange(0, 5)[3]);
            assert(b@[4] == b@.subrange(0, 5)[4]);
        }
    }
    if n >= 32 {
        let mut key = [0u8; 32];
        let mut i: usize = 0;
        while i < 32
            invariant
                i <= 32,
                n == b@.len(),
                n >= 32,
                key@.len() == 32,
                forall|k: int| 0 <= k < i ==> key@[k] == b@[k],
            decreases 32 - i,
        {
            key.set(i, b[i]);
            i = i + 1;
        }
        assert(key@ =~= b@.take(32));
        return KeyFile::Plain(key);
    }
    KeyFile::Unusable
}

/// The bytes saved for a new key: the protected form after the magic
/// prefix when there is one, else the key itself.
pub fn key_file_bytes(key: &[u8; 32], protected: Option<Vec<u8>>) -> (r: Vec<u8>)
    ensures
        match protected {
            Some(p) => r@ == dpapi_magic() + p@,
            None => r@ == key@,
        },
{
    match protected {
        Some(p) => {
            let mut out: Vec<u8> = vec![68u8, 80, 65, 80, 73];
            let n = p.len();
            let mut i: usize = 0;
            while i < n
                invariant
                    i <= n == p@.len(),
                    out@ == dpapi_magic() + p@.take(i as int),
                decreases n - i,
            {
                out.push(p[i]);
                i = i + 1;
                assert(out@ =~= dpapi_magic() + p@.take(i as int));
            }
            assert(p@.take(n as int) =~= p@);
            out
        },
        None => {
            let mut out: Vec<u8> = Vec::new();
            let mut i: usize = 0;
            while i < 32
                invariant
                    i <= 32,
                    key@.len() == 32,
                    out@ == key@.take(i as int),
                decreases 32 - i,
            {
                out.push(key[i]);
                i = i + 1;
                assert(out@ =~= key@.take(i as int));
            }
            assert(key@.take(32) =~= key@);
            out
        },
    }
}

/// A key saved without protection reads back as itself.
pub proof fn lemma_plain_key_reads_back(key: Seq<u8>, windows: bool)
    requires
        key.len() == 32,
        !(windows && dpapi_magic().is_prefix_of(key)),
    ensures
        key_file_of(key, windows) == KeyFileView::Plain(key),
{
    assert(key.take(32) =~= key);
}


/// A key saved in protected form reads back as the same protected bytes.
pub proof fn lemma_protected_key_reads_back(p: Seq<u8>)
    requires
        p.len() > 0,
    ensures
        key_file_of(dpapi_magic() + p, true) == KeyFileView::Protected(p),
{
    let b = dpapi_magic() + p;
    assert(b.subrange(0, 5) =~= dpapi_magic());
    assert(b.skip(5) =~= p);
}

} // verus!
