//! The cipher-suite boundary: a capability bundle of hash, key derivation
//! and AEAD seal/open, selected at construction. The core is parametric
//! over this trait and implements no real cryptographic primitive itself.
//!
//! [`SimpleSuite`] is the one suite this crate ships: a fast, verified,
//! **non-cryptographic** stand-in (a mixing checksum, an additive pad) that
//! exercises the key schedule and record layer end to end. A production
//! binding supplies real primitives behind the same trait.
use vstd::prelude::*;
use vstd::wrapping::u64_specs;
use crate::TlsError;
use vstd::slice::slice_subrange;

verus! {

/// The pluggable cryptographic capability bundle. Each operation has a
/// deterministic specification-level twin; the executable methods must
/// return exactly what the twin describes, and every implementation must
/// prove that `open` inverts `seal`.
pub trait CipherSuite: Sized {
    spec fn hash_len_spec(&self) -> nat;

    spec fn key_len_spec(&self) -> nat;

    spec fn iv_len_spec(&self) -> nat;

    spec fn tag_len_spec(&self) -> nat;

    spec fn hash_spec(&self, data: Seq<u8>) -> Seq<u8>;

    spec fn derive_spec(&self, secret: Seq<u8>, label: Seq<u8>, context: Seq<u8>, n: nat) -> Seq<
        u8,
    >;

    spec fn seal_spec(&self, key: Seq<u8>, nonce: Seq<u8>, aad: Seq<u8>, plaintext: Seq<u8>) -> Seq<
        u8,
    >;

    spec fn open_spec(
        &self,
        key: Seq<u8>,
        nonce: Seq<u8>,
        aad: Seq<u8>,
        ciphertext: Seq<u8>,
    ) -> Option<Seq<u8>>;

    fn hash_len(&self) -> (n: usize)
        ensures
            n as nat == self.hash_len_spec(),
            1 <= n <= 64,
    ;

    fn key_len(&self) -> (n: usize)
        ensures
            n as nat == self.key_len_spec(),
            1 <= n <= 64,
    ;

    fn iv_len(&self) -> (n: usize)
        ensures
            n as nat == self.iv_len_spec(),
            8 <= n <= 16,
    ;

    fn tag_len(&self) -> (n: usize)
        ensures
            n as nat == self.tag_len_spec(),
            1 <= n <= 32,
    ;

    /// The transcript hash.
    fn hash(&self, data: &[u8]) -> (h: Vec<u8>)
        ensures
            h@ == self.hash_spec(data@),
            h@.len() == self.hash_len_spec(),
    ;

    /// Derives `n` bytes from a secret, a label and a context (a transcript
    /// hash).
    fn derive(&self, secret: &[u8], label: &[u8], context: &[u8], n: usize) -> (k: Vec<u8>)
        requires
            n <= 0xff,
        ensures
            k@ == self.derive_spec(secret@, label@, context@, n as nat),
            k@.len() == n,
    ;

    /// Authenticated encryption: ciphertext followed by the tag.
    fn seal(&self, key: &[u8], nonce: &[u8], aad: &[u8], plaintext: &[u8]) -> (c: Vec<u8>)
        requires
            key@.len() == self.key_len_spec(),
            nonce@.len() == self.iv_len_spec(),
            plaintext@.len() + self.tag_len_spec() <= usize::MAX,
        ensures
            c@ == self.seal_spec(key@, nonce@, aad@, plaintext@),
            c@.len() == plaintext@.len() + self.tag_len_spec(),
    ;

    /// Authenticate, then decrypt. Fails exactly when the specification
    /// twin rejects; never returns bytes from an unauthenticated record.
    fn open(&self, key: &[u8], nonce: &[u8], aad: &[u8], ciphertext: &[u8]) -> (r: Result<
        Vec<u8>,
        TlsError,
    >)
        requires
            key@.len() == self.key_len_spec(),
            nonce@.len() == self.iv_len_spec(),
        ensures
            r is Ok <==> self.open_spec(key@, nonce@, aad@, ciphertext@) is Some,
            r matches Ok(p) ==> Some(p@) == self.open_spec(key@, nonce@, aad@, ciphertext@) && p@.len()
                + self.tag_len_spec() == ciphertext@.len(),
            r is Err ==> r == Err::<Vec<u8>, TlsError>(TlsError::CryptoError),
    ;

    /// Opening what was sealed, under the same key, nonce and associated
    /// data, gives the plaintext back.
    proof fn lemma_seal_open(&self, key: Seq<u8>, nonce: Seq<u8>, aad: Seq<u8>, plaintext: Seq<u8>)
        requires
            key.len() == self.key_len_spec(),
            nonce.len() == self.iv_len_spec(),
        ensures
            self.open_spec(key, nonce, aad, self.seal_spec(key, nonce, aad, plaintext)) == Some(
                plaintext,
            ),
    ;

    /// Sealing adds exactly the tag's length.
    proof fn lemma_seal_len(&self, key: Seq<u8>, nonce: Seq<u8>, aad: Seq<u8>, plaintext: Seq<u8>)
        ensures
            self.seal_spec(key, nonce, aad, plaintext).len() == plaintext.len()
                + self.tag_len_spec(),
    ;
}

/// The multiplier of the mixing step.
pub const MIX_PRIME: u64 = 0x100000001b3;

/// One mixing step: fold one byte into the running state.
pub open spec fn spec_mix(h: u64, b: u8) -> u64 {
    u64_specs::wrapping_mul(h ^ (b as u64), MIX_PRIME)
}

/// Folds a whole byte sequence into the running state, left to right.
pub open spec fn spec_mix_seq(h: u64, s: Seq<u8>) -> u64
    decreases s.len(),
{
    if s.len() == 0 {
        h
    } else {
        spec_mix_seq(spec_mix(h, s[0]), s.skip(1))
    }
}

/// Folding a concatenation folds the parts in order.
pub proof fn lemma_mix_seq_append(h: u64, a: Seq<u8>, b: Seq<u8>)
    ensures
        spec_mix_seq(h, a + b) == spec_mix_seq(spec_mix_seq(h, a), b),
    decreases a.len(),
{
    if a.len() == 0 {
        assert(a + b =~= b);
    } else {
        assert((a + b).skip(1) =~= a.skip(1) + b);
        lemma_mix_seq_append(spec_mix(h, a[0]), a.skip(1), b);
    }
}

/// The eight little-endian bytes of a 64-bit state.
pub open spec fn spec_state_bytes(h: u64) -> Seq<u8> {
    seq![
        (h % 256) as u8,
        ((h / 0x100) % 256) as u8,
        ((h / 0x10000) % 256) as u8,
        ((h / 0x1000000) % 256) as u8,
        ((h / 0x100000000) % 256) as u8,
        ((h / 0x10000000000) % 256) as u8,
        ((h / 0x1000000000000) % 256) as u8,
        ((h / 0x100000000000000) % 256) as u8,
    ]
}

/// The pad byte the simple suite adds at position `i`.
pub open spec fn spec_pad_byte(key: Seq<u8>, nonce: Seq<u8>, i: int) -> u8 {
    (key[i % key.len() as int] ^ nonce[i % nonce.len() as int]) as u8
}

/// The simple suite's body transformation: a byte-wise pad from key and
/// nonce. Applying it twice gives the input back.
pub open spec fn spec_pad(key: Seq<u8>, nonce: Seq<u8>, data: Seq<u8>) -> Seq<u8> {
    Seq::new(data.len(), |i: int| (data[i] ^ spec_pad_byte(key, nonce, i)) as u8)
}

/// Folds one byte into the running state.
fn mix(h: u64, b: u8) -> (r: u64)
    ensures
        r == spec_mix(h, b),
{
    (h ^ (b as u64)).wrapping_mul(MIX_PRIME)
}

/// Folds a whole slice into the running state.
fn mix_bytes(h: u64, s: &[u8]) -> (r: u64)
    ensures
        r == spec_mix_seq(h, s@),
{
    let mut acc = h;
    let mut i: usize = 0;
    proof {
        assert(s@.skip(0) =~= s@);
    }
    while i < s.len()
        invariant
            0 <= i <= s@.len(),
            spec_mix_seq(h, s@) == spec_mix_seq(acc, s@.skip(i as int)),
        decreases s@.len() - i,
    {
        proof {
            assert(s@.skip(i as int)[0] == s@[i as int]);
            assert(s@.skip(i as int).skip(1) =~= s@.skip(i as int + 1));
        }
        acc = mix(acc, s[i]);
        i = i + 1;
    }
    proof {
        assert(s@.skip(s@.len() as int) =~= Seq::<u8>::empty());
    }
    acc
}

/// Writes the eight state bytes.
fn push_state_bytes(out: &mut Vec<u8>, h: u64)
    ensures
        final(out)@ == old(out)@ + spec_state_bytes(h),
{
    let ghost before = out@;
    out.push((h % 256) as u8);
    out.push(((h / 0x100) % 256) as u8);
    out.push(((h / 0x10000) % 256) as u8);
    out.push(((h / 0x1000000) % 256) as u8);
    out.push(((h / 0x100000000) % 256) as u8);
    out.push(((h / 0x10000000000) % 256) as u8);
    out.push(((h / 0x1000000000000) % 256) as u8);
    out.push(((h / 0x100000000000000) % 256) as u8);
    proof {
        assert((*out)@ =~= before + spec_state_bytes(h));
    }
}

/// Applies the pad to a slice.
fn apply_pad(key: &[u8], nonce: &[u8], data: &[u8]) -> (r: Vec<u8>)
    requires
        key@.len() >= 1,
        nonce@.len() >= 1,
    ensures
        r@ == spec_pad(key@, nonce@, data@),
{
    let mut out: Vec<u8> = Vec::new();
    let mut i: usize = 0;
    while i < data.len()
        invariant
            0 <= i <= data@.len(),
            key@.len() >= 1,
            nonce@.len() >= 1,
            out@ == spec_pad(key@, nonce@, data@).take(i as int),
        decreases data@.len() - i,
    {
        let b = data[i] ^ key[i % key.len()] ^ nonce[i % nonce.len()];
        out.push(b);
        proof {
            let d = data@[i as int];
            let kk = key@[i as int % key@.len() as int];
            let nn = nonce@[i as int % nonce@.len() as int];
            assert((d ^ kk) ^ nn == d ^ (kk ^ nn)) by (bit_vector);
            assert(out@ =~= spec_pad(key@, nonce@, data@).take(i as int + 1));
        }
        i = i + 1;
    }
    proof {
        assert(out@ =~= spec_pad(key@, nonce@, data@));
    }
    out
}

/// Compares two byte slices.
pub(crate) fn bytes_equal(a: &[u8], b: &[u8]) -> (r: bool)
    ensures
        r == (a@ == b@),
{
    if a.len() != b.len() {
        proof {
            assert(a@ != b@);
        }
        return false;
    }
    let mut i: usize = 0;
    while i < a.len()
        invariant
            0 <= i <= a@.len(),
            a@.len() == b@.len(),
            forall|j: int| 0 <= j < i ==> a@[j] == b@[j],
        decreases a@.len() - i,
    {
        if a[i] != b[i] {
            return false;
        }
        i = i + 1;
    }
    proof {
        assert(a@ =~= b@);
    }
    true
}

/// The non-cryptographic suite this crate ships for exercising the core.
pub struct SimpleSuite;

/// The seed of the transcript hash.
pub const HASH_SEED: u64 = 0xcbf29ce484222325;

/// The seed of the derivation chain.
pub const DERIVE_SEED: u64 = 0x9e3779b97f4a7c15;

/// The seed of the record tag.
pub const TAG_SEED: u64 = 0x2545f4914f6cdd1d;

impl SimpleSuite {
    /// The running state over secret, label and context that derivation
    /// draws bytes from.
    pub open spec fn derive_state(secret: Seq<u8>, label: Seq<u8>, context: Seq<u8>) -> u64 {
        spec_mix_seq(DERIVE_SEED, secret + label + context)
    }

    /// The tag over key, nonce, associated data and body.
    pub open spec fn tag_state(key: Seq<u8>, nonce: Seq<u8>, aad: Seq<u8>, body: Seq<u8>) -> u64 {
        spec_mix_seq(TAG_SEED, key + nonce + aad + body)
    }

    /// Computes the tag state executably.
    fn tag_state_exec(key: &[u8], nonce: &[u8], aad: &[u8], body: &[u8]) -> (r: u64)
        ensures
            r == Self::tag_state(key@, nonce@, aad@, body@),
    {
        let t0 = mix_bytes(TAG_SEED, key);
        let t1 = mix_bytes(t0, nonce);
        let t2 = mix_bytes(t1, aad);
        let t3 = mix_bytes(t2, body);
        proof {
            lemma_mix_seq_append(TAG_SEED, key@, nonce@);
            lemma_mix_seq_append(TAG_SEED, key@ + nonce@, aad@);
            lemma_mix_seq_append(TAG_SEED, key@ + nonce@ + aad@, body@);
            assert(key@ + nonce@ + aad@ + body@ =~= ((key@ + nonce@) + aad@) + body@);
        }
        t3
    }
}

impl CipherSuite for SimpleSuite {
    open spec fn hash_len_spec(&self) -> nat {
        8
    }

    open spec fn key_len_spec(&self) -> nat {
        16
    }

    open spec fn iv_len_spec(&self) -> nat {
        12
    }

    open spec fn tag_len_spec(&self) -> nat {
        8
    }

    open spec fn hash_spec(&self, data: Seq<u8>) -> Seq<u8> {
        spec_state_bytes(spec_mix_seq(HASH_SEED, data))
    }

    open spec fn derive_spec(
        &self,
        secret: Seq<u8>,
        label: Seq<u8>,
        context: Seq<u8>,
        n: nat,
    ) -> Seq<u8> {
        Seq::new(
            n,
            |i: int| (spec_mix(Self::derive_state(secret, label, context), (i % 256) as u8)
                % 256) as u8,
        )
    }

    open spec fn seal_spec(
        &self,
        key: Seq<u8>,
        nonce: Seq<u8>,
        aad: Seq<u8>,
        plaintext: Seq<u8>,
    ) -> Seq<u8> {
        let body = spec_pad(key, nonce, plaintext);
        body + spec_state_bytes(Self::tag_state(key, nonce, aad, body))
    }

    open spec fn open_spec(
        &self,
        key: Seq<u8>,
        nonce: Seq<u8>,
        aad: Seq<u8>,
        ciphertext: Seq<u8>,
    ) -> Option<Seq<u8>> {
        if ciphertext.len() < 8 {
            None
        } else {
            let body = ciphertext.take(ciphertext.len() - 8);
            let tag = ciphertext.skip(ciphertext.len() - 8);
            if tag == spec_state_bytes(Self::tag_state(key, nonce, aad, body)) {
                Some(spec_pad(key, nonce, body))
            } else {
                None
            }
        }
    }

    fn hash_len(&self) -> (n: usize) {
        8
    }

    fn key_len(&self) -> (n: usize) {
        16
    }

    fn iv_len(&self) -> (n: usize) {
        12
    }

    fn tag_len(&self) -> (n: usize) {
        8
    }

    fn hash(&self, data: &[u8]) -> (h: Vec<u8>) {
        let state = mix_bytes(HASH_SEED, data);
        let mut out: Vec<u8> = Vec::new();
        push_state_bytes(&mut out, state);
        proof {
            assert(out@ =~= self.hash_spec(data@));
        }
        out
    }

    fn derive(&self, secret: &[u8], label: &[u8], context: &[u8], n: usize) -> (k: Vec<u8>) {
        let s0 = mix_bytes(DERIVE_SEED, secret);
        let s1 = mix_bytes(s0, label);
        let base = mix_bytes(s1, context);
        proof {
            lemma_mix_seq_append(DERIVE_SEED, secret@, label@);
            lemma_mix_seq_append(DERIVE_SEED, secret@ + label@, context@);
            assert(secret@ + label@ + context@ =~= (secret@ + label@) + context@);
        }
        let mut out: Vec<u8> = Vec::new();
        let mut i: usize = 0;
        while i < n
            invariant
                0 <= i <= n,
                n <= 0xff,
                base == Self::derive_state(secret@, label@, context@),
                out@ == self.derive_spec(secret@, label@, context@, n as nat).take(i as int),
            decreases n - i,
        {
            let b = (mix(base, i as u8) % 256) as u8;
            out.push(b);
            proof {
                assert(out@ =~= self.derive_spec(secret@, label@, context@, n as nat).take(
                    i as int + 1,
                ));
            }
            i = i + 1;
        }
        proof {
            assert(out@ =~= self.derive_spec(secret@, label@, context@, n as nat));
        }
        out
    }

    fn seal(&self, key: &[u8], nonce: &[u8], aad: &[u8], plaintext: &[u8]) -> (c: Vec<u8>) {
        let mut body = apply_pad(key, nonce, plaintext);
        let tag_state = Self::tag_state_exec(key, nonce, aad, body.as_slice());
        let ghost body_view = body@;
        push_state_bytes(&mut body, tag_state);
        proof {
            assert(body@ =~= self.seal_spec(key@, nonce@, aad@, plaintext@));
        }
        body
    }

    fn open(&self, key: &[u8], nonce: &[u8], aad: &[u8], ciphertext: &[u8]) -> (r: Result<
        Vec<u8>,
        TlsError,
    >) {
        if ciphertext.len() < 8 {
            return Err(TlsError::CryptoError);
        }
        let split = ciphertext.len() - 8;
        let body = slice_subrange(ciphertext, 0, split);
        let tag = slice_subrange(ciphertext, split, ciphertext.len());
        proof {
            assert(body@ =~= ciphertext@.take(split as int));
            assert(tag@ =~= ciphertext@.skip(split as int));
        }
        let expected_state = Self::tag_state_exec(key, nonce, aad, body);
        let mut expected: Vec<u8> = Vec::new();
        push_state_bytes(&mut expected, expected_state);
        proof {
            assert(expected@ =~= spec_state_bytes(expected_state));
        }
        if bytes_equal(tag, expected.as_slice()) {
            let plain = apply_pad(key, nonce, body);
            Ok(plain)
        } else {
            Err(TlsError::CryptoError)
        }
    }

    proof fn lemma_seal_open(
        &self,
        key: Seq<u8>,
        nonce: Seq<u8>,
        aad: Seq<u8>,
        plaintext: Seq<u8>,
    ) {
        let body = spec_pad(key, nonce, plaintext);
        let sealed = self.seal_spec(key, nonce, aad, plaintext);
        assert(sealed.len() == body.len() + 8);
        assert(sealed.take(sealed.len() - 8) =~= body);
        assert(sealed.skip(sealed.len() - 8) =~= spec_state_bytes(
            Self::tag_state(key, nonce, aad, body),
        ));
        assert forall|i: int| 0 <= i < plaintext.len() implies spec_pad(key, nonce, body)[i]
            == plaintext[i] by {
            let p = spec_pad_byte(key, nonce, i);
            let d = plaintext[i];
            assert((d ^ p) ^ p == d) by (bit_vector);
        }
        assert(spec_pad(key, nonce, body) =~= plaintext);
    }

    proof fn lemma_seal_len(
        &self,
        key: Seq<u8>,
        nonce: Seq<u8>,
        aad: Seq<u8>,
        plaintext: Seq<u8>,
    ) {
    }
}

} // verus!
