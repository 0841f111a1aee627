//! The record layer: wraps the 5-byte record header around sealed
//! payloads, drives the per-direction sequence number into the nonce, and
//! splits long outbound data across records. Inbound, it re-assembles
//! handshake messages that span records in a fixed-capacity area.
use vstd::prelude::*;
use vstd::slice::slice_subrange;
use crate::TlsError;
use crate::cipher_suite::CipherSuite;
use crate::wire::{be_u16, u16_value, u24_value};

verus! {

/// The largest payload one record carries.
pub const MAX_RECORD_PAYLOAD: usize = 16384;

/// The content type of an alert record.
pub const CONTENT_ALERT: u8 = 21;

/// The content type of a handshake record.
pub const CONTENT_HANDSHAKE: u8 = 22;

/// The content type of an application-data record.
pub const CONTENT_APPLICATION_DATA: u8 = 23;

/// The five header bytes: content type, the fixed version, and the length
/// of what follows.
pub open spec fn record_header(content_type: u8, len: nat) -> Seq<u8> {
    seq![content_type, 3u8, 3u8] + be_u16(len)
}

/// The eight big-endian bytes of a sequence number.
pub open spec fn seq_no_bytes(n: u64) -> Seq<u8> {
    seq![
        ((n / 0x100000000000000) % 256) as u8,
        ((n / 0x1000000000000) % 256) as u8,
        ((n / 0x10000000000) % 256) as u8,
        ((n / 0x100000000) % 256) as u8,
        ((n / 0x1000000) % 256) as u8,
        ((n / 0x10000) % 256) as u8,
        ((n / 0x100) % 256) as u8,
        (n % 256) as u8,
    ]
}

/// The per-record nonce: the IV with the sequence number folded into its
/// last eight bytes.
pub open spec fn record_nonce(iv: Seq<u8>, seq_no: u64) -> Seq<u8> {
    Seq::new(
        iv.len(),
        |i: int| if i < iv.len() - 8 {
            iv[i]
        } else {
            (iv[i] ^ seq_no_bytes(seq_no)[i - (iv.len() - 8)]) as u8
        },
    )
}

/// One whole sealed record, header included.
pub open spec fn spec_sealed_record<S: CipherSuite>(
    suite: S,
    key: Seq<u8>,
    iv: Seq<u8>,
    seq_no: u64,
    content_type: u8,
    payload: Seq<u8>,
) -> Seq<u8> {
    let clen = payload.len() + suite.tag_len_spec();
    let header = record_header(content_type, clen);
    header + suite.seal_spec(key, record_nonce(iv, seq_no), header, payload)
}

/// What opening one whole record yields: the content type and plaintext,
/// or nothing when the header is malformed or authentication fails.
pub open spec fn spec_open_record<S: CipherSuite>(
    suite: S,
    key: Seq<u8>,
    iv: Seq<u8>,
    seq_no: u64,
    record: Seq<u8>,
) -> Option<(u8, Seq<u8>)> {
    if record.len() < 5 {
        None
    } else if record[1] != 3 || record[2] != 3 {
        None
    } else if u16_value(record[3], record[4]) != record.len() - 5 {
        None
    } else {
        match suite.open_spec(
            key,
            record_nonce(iv, seq_no),
            record.take(5),
            record.skip(5),
        ) {
            Option::Some(p) => Some((record[0], p)),
            Option::None => None,
        }
    }
}

/// Round trip of the record layer: a record sealed under a key, IV and
/// sequence number opens, under the same three, to exactly the payload it
/// carried. This rests on the suite's own seal/open inversion.
#[verifier::rlimit(100)]
pub proof fn lemma_record_round_trip<S: CipherSuite>(
    suite: S,
    key: Seq<u8>,
    iv: Seq<u8>,
    seq_no: u64,
    content_type: u8,
    payload: Seq<u8>,
)
    requires
        key.len() == suite.key_len_spec(),
        iv.len() == suite.iv_len_spec(),
        payload.len() + suite.tag_len_spec() <= 0xffff,
    ensures
        spec_open_record(
            suite,
            key,
            iv,
            seq_no,
            spec_sealed_record(suite, key, iv, seq_no, content_type, payload),
        ) == Some((content_type, payload)),
{
    let clen = payload.len() + suite.tag_len_spec();
    let header = record_header(content_type, clen);
    let nonce = record_nonce(iv, seq_no);
    let sealed = suite.seal_spec(key, nonce, header, payload);
    let record = spec_sealed_record(suite, key, iv, seq_no, content_type, payload);
    suite.lemma_seal_open(key, nonce, header, payload);
    assert(record == header + sealed);
    assert(header.len() == 5) by {
        assert(be_u16(clen).len() == 2);
    }
    suite.lemma_seal_len(key, nonce, header, payload);
    assert(sealed.len() == clen);
    assert(record.len() == 5 + sealed.len());
    assert(record[1] == 3 && record[2] == 3);
    crate::wire::lemma_be_u16_value(clen);
    assert(record[3] == be_u16(clen)[0] && record[4] == be_u16(clen)[1]);
    assert(u16_value(record[3], record[4]) == clen);
    assert(record.take(5) =~= header);
    assert(record.skip(5) =~= sealed);
}

/// A per-direction record counter; the nonce never repeats because the
/// counter never wraps.
pub struct SequenceCounter {
    next: u64,
}

impl SequenceCounter {
    pub closed spec fn current(&self) -> u64 {
        self.next
    }

    pub fn new() -> (r: SequenceCounter)
        ensures
            r.current() == 0,
    {
        SequenceCounter { next: 0 }
    }

    /// Hands out the next sequence number; fails, rather than wrapping,
    /// when the space is exhausted.
    pub fn take_next(&mut self) -> (r: Result<u64, TlsError>)
        ensures
            old(self).current() < u64::MAX ==> r == Ok::<u64, TlsError>(old(self).current())
                && final(self).current() == old(self).current() + 1,
            old(self).current() == u64::MAX ==> r == Err::<u64, TlsError>(
                TlsError::RecordSequenceOverflow,
            ) && final(self).current() == old(self).current(),
    {
        if self.next == u64::MAX {
            Err(TlsError::RecordSequenceOverflow)
        } else {
            let n = self.next;
            self.next = self.next + 1;
            Ok(n)
        }
    }
}

/// Builds the per-record nonce.
fn make_nonce(iv: &[u8], seq_no: u64) -> (r: Vec<u8>)
    requires
        iv@.len() >= 8,
    ensures
        r@ == record_nonce(iv@, seq_no),
{
    let eight: [u8; 8] = [
        ((seq_no / 0x100000000000000) % 256) as u8,
        ((seq_no / 0x1000000000000) % 256) as u8,
        ((seq_no / 0x10000000000) % 256) as u8,
        ((seq_no / 0x100000000) % 256) as u8,
        ((seq_no / 0x1000000) % 256) as u8,
        ((seq_no / 0x10000) % 256) as u8,
        ((seq_no / 0x100) % 256) as u8,
        (seq_no % 256) as u8,
    ];
    proof {
        assert(eight@ =~= seq_no_bytes(seq_no));
    }
    let split = iv.len() - 8;
    let mut out: Vec<u8> = Vec::new();
    let mut i: usize = 0;
    while i < iv.len()
        invariant
            0 <= i <= iv@.len(),
            iv@.len() >= 8,
            split == iv@.len() - 8,
            eight@ == seq_no_bytes(seq_no),
            out@ == record_nonce(iv@, seq_no).take(i as int),
        decreases iv@.len() - i,
    {
        let b = if i < split {
            iv[i]
        } else {
            iv[i] ^ eight[i - split]
        };
        out.push(b);
        proof {
            assert(out@ =~= record_nonce(iv@, seq_no).take(i as int + 1));
        }
        i = i + 1;
    }
    proof {
        assert(out@ =~= record_nonce(iv@, seq_no));
    }
    out
}

/// Seals one record: header, then the sealed payload, the header being the
/// associated data.
#[verifier::rlimit(80)]
pub fn seal_record<S: CipherSuite>(
    suite: &S,
    key: &[u8],
    iv: &[u8],
    seq_no: u64,
    content_type: u8,
    payload: &[u8],
) -> (r: Vec<u8>)
    requires
        key@.len() == suite.key_len_spec(),
        iv@.len() == suite.iv_len_spec(),
        payload@.len() <= MAX_RECORD_PAYLOAD,
    ensures
        r@ == spec_sealed_record(*suite, key@, iv@, seq_no, content_type, payload@),
{
    let iv_len_check = suite.iv_len();
    let nonce = make_nonce(iv, seq_no);
    let tag_len = suite.tag_len();
    let clen = payload.len() + tag_len;
    let header: [u8; 5] = [content_type, 3, 3, (clen / 256) as u8, (clen % 256) as u8];
    proof {
        assert(header@ =~= record_header(content_type, clen as nat));
    }
    let sealed = suite.seal(key, nonce.as_slice(), header.as_slice(), payload);
    let mut out: Vec<u8> = Vec::new();
    out.extend_from_slice(header.as_slice());
    out.extend_from_slice(sealed.as_slice());
    proof {
        assert(out@ =~= spec_sealed_record(*suite, key@, iv@, seq_no, content_type, payload@));
    }
    out
}

/// Opens one whole record. Fails exactly when the specification-level
/// opening rejects: a short or malformed header, a length that does not
/// match, or failed authentication — in which case no plaintext leaves.
#[verifier::rlimit(80)]
pub fn open_record<S: CipherSuite>(
    suite: &S,
    key: &[u8],
    iv: &[u8],
    seq_no: u64,
    record: &[u8],
) -> (r: Result<(u8, Vec<u8>), TlsError>)
    requires
        key@.len() == suite.key_len_spec(),
        iv@.len() == suite.iv_len_spec(),
    ensures
        r is Ok <==> spec_open_record(*suite, key@, iv@, seq_no, record@) is Some,
        r matches Ok((t, p)) ==> Some((t, p@)) == spec_open_record(
            *suite,
            key@,
            iv@,
            seq_no,
            record@,
        ),
{
    if record.len() < 5 {
        return Err(TlsError::InvalidRecord);
    }
    let content_type = record[0];
    if record[1] != 3 || record[2] != 3 {
        return Err(TlsError::InvalidRecord);
    }
    let declared = record[3] as usize * 256 + record[4] as usize;
    if declared != record.len() - 5 {
        return Err(TlsError::InvalidRecord);
    }
    let iv_len_check = suite.iv_len();
    let header = slice_subrange(record, 0, 5);
    let body = slice_subrange(record, 5, record.len());
    proof {
        assert(header@ =~= record@.take(5));
        assert(body@ =~= record@.skip(5));
    }
    let nonce = make_nonce(iv, seq_no);
    match suite.open(key, nonce.as_slice(), header, body) {
        Ok(p) => Ok((content_type, p)),
        Err(_) => Err(TlsError::CryptoError),
    }
}

/// A fixed-capacity reassembly area for handshake messages that span
/// records. Bytes go in record by record; whole messages come out.
pub struct Reassembler {
    data: Vec<u8>,
    capacity: usize,
}

impl Reassembler {
    /// The bytes buffered and not yet taken.
    pub closed spec fn buffered(&self) -> Seq<u8> {
        self.data@
    }

    pub closed spec fn cap(&self) -> int {
        self.capacity as int
    }

    pub open spec fn wf(&self) -> bool {
        self.buffered().len() <= self.cap()
    }

    pub fn new(capacity: usize) -> (r: Reassembler)
        ensures
            r.wf(),
            r.buffered() == Seq::<u8>::empty(),
            r.cap() == capacity,
    {
        Reassembler { data: Vec::new(), capacity }
    }

    /// Adds one record's worth of handshake bytes. Fails, changing
    /// nothing, exactly when the fixed area would overflow.
    pub fn push_bytes(&mut self, bytes: &[u8]) -> (r: Result<(), TlsError>)
        requires
            old(self).wf(),
        ensures
            final(self).wf(),
            final(self).cap() == old(self).cap(),
            r is Ok <==> old(self).buffered().len() + bytes@.len() <= old(self).cap(),
            r is Ok ==> final(self).buffered() == old(self).buffered() + bytes@,
            r is Err ==> final(self).buffered() == old(self).buffered() && r == Err::<
                (),
                TlsError,
            >(TlsError::InsufficientSpace),
    {
        if bytes.len() <= self.capacity - self.data.len() {
            self.data.extend_from_slice(bytes);
            Ok(())
        } else {
            Err(TlsError::InsufficientSpace)
        }
    }

    /// Whether a whole handshake message (type byte, 24-bit length, body)
    /// is buffered at the front.
    pub open spec fn message_ready(s: Seq<u8>) -> bool {
        s.len() >= 4 && s.len() >= 4 + u24_value(s[1], s[2], s[3])
    }

    /// Takes one whole handshake message off the front, if one is ready:
    /// its type byte and its body. The header and body leave the buffer;
    /// anything after them stays.
    pub fn take_message(&mut self) -> (r: Option<(u8, Vec<u8>)>)
        requires
            old(self).wf(),
        ensures
            final(self).wf(),
            final(self).cap() == old(self).cap(),
            r is Some <==> Self::message_ready(old(self).buffered()),
            r matches Some((t, body)) ==> {
                let buffered = old(self).buffered();
                let blen = u24_value(buffered[1], buffered[2], buffered[3]) as int;
                &&& t == buffered[0]
                &&& body@ == buffered.subrange(4, 4 + blen)
                &&& final(self).buffered() == buffered.skip(4 + blen)
            },
            r is None ==> final(self).buffered() == old(self).buffered(),
    {
        if self.data.len() < 4 {
            return None;
        }
        let blen = self.data[1] as usize * 65536 + self.data[2] as usize * 256
            + self.data[3] as usize;
        if self.data.len() - 4 < blen {
            return None;
        }
        let msg_type = self.data[0];
        let mut body: Vec<u8> = Vec::new();
        body.extend_from_slice(slice_subrange(self.data.as_slice(), 4, 4 + blen));
        let mut rest: Vec<u8> = Vec::new();
        rest.extend_from_slice(slice_subrange(self.data.as_slice(), 4 + blen, self.data.len()));
        proof {
            assert(body@ =~= old(self).buffered().subrange(4, 4 + blen as int));
            assert(rest@ =~= old(self).buffered().skip(4 + blen as int));
        }
        self.data = rest;
        Some((msg_type, body))
    }
}

/// How many records `len` bytes of outbound data take.
pub open spec fn fragment_count(len: nat) -> nat {
    (((len + MAX_RECORD_PAYLOAD - 1) as int / MAX_RECORD_PAYLOAD as int)) as nat
}

/// The whole outbound stream for `data`: one sealed record per fragment of
/// at most [`MAX_RECORD_PAYLOAD`] bytes, under consecutive sequence
/// numbers.
pub open spec fn spec_sealed_stream<S: CipherSuite>(
    suite: S,
    key: Seq<u8>,
    iv: Seq<u8>,
    seq_no: u64,
    content_type: u8,
    data: Seq<u8>,
) -> Seq<u8>
    decreases data.len(),
{
    if data.len() == 0 {
        Seq::empty()
    } else {
        let k = if data.len() <= MAX_RECORD_PAYLOAD {
            data.len() as int
        } else {
            MAX_RECORD_PAYLOAD as int
        };
        spec_sealed_record(suite, key, iv, seq_no, content_type, data.take(k))
            + spec_sealed_stream(
            suite,
            key,
            iv,
            (((seq_no + 1) as int) % 0x10000000000000000) as u64,
            content_type,
            data.skip(k),
        )
    }
}

/// Fragments outbound data across records and seals each under the next
/// sequence number from the counter. The counter moves exactly one step
/// per record.
#[verifier::rlimit(100)]
pub fn seal_stream<S: CipherSuite>(
    suite: &S,
    key: &[u8],
    iv: &[u8],
    counter: &mut SequenceCounter,
    content_type: u8,
    data: &[u8],
) -> (r: Vec<u8>)
    requires
        key@.len() == suite.key_len_spec(),
        iv@.len() == suite.iv_len_spec(),
        old(counter).current() + fragment_count(data@.len()) <= u64::MAX,
    ensures
        r@ == spec_sealed_stream(
            *suite,
            key@,
            iv@,
            old(counter).current(),
            content_type,
            data@,
        ),
        final(counter).current() == old(counter).current() + fragment_count(data@.len()),
{
    let mut out: Vec<u8> = Vec::new();
    let mut i: usize = 0;
    proof {
        assert(data@.skip(0) =~= data@);
    }
    while i < data.len()
        invariant
            0 <= i <= data@.len(),
            key@.len() == suite.key_len_spec(),
            iv@.len() == suite.iv_len_spec(),
            counter.current() + fragment_count((data@.len() - i) as nat) <= u64::MAX,
            counter.current() == old(counter).current() + fragment_count(i as nat),
            i as int % MAX_RECORD_PAYLOAD as int == 0 || i == data@.len(),
            spec_sealed_stream(
                *suite,
                key@,
                iv@,
                old(counter).current(),
                content_type,
                data@,
            ) == out@ + spec_sealed_stream(
                *suite,
                key@,
                iv@,
                counter.current(),
                content_type,
                data@.skip(i as int),
            ),
        decreases data@.len() - i,
    {
        proof {
            assert(i as int % MAX_RECORD_PAYLOAD as int == 0);
        }
        let remaining = data.len() - i;
        let k = if remaining <= MAX_RECORD_PAYLOAD {
            remaining
        } else {
            MAX_RECORD_PAYLOAD
        };
        proof {
            assert(fragment_count(remaining as nat) >= 1 && fragment_count(remaining as nat) == 1
                + fragment_count((remaining - k) as nat)) by (nonlinear_arith)
                requires
                    1 <= k <= MAX_RECORD_PAYLOAD,
                    k <= remaining,
                    k == MAX_RECORD_PAYLOAD || k == remaining,
            ;
        }
        let chunk = slice_subrange(data, i, i + k);
        proof {
            assert(chunk@ =~= data@.skip(i as int).take(k as int));
        }
        let seq_no = match counter.take_next() {
            Ok(n) => n,
            Err(_) => {
                proof {
                    assert(false);
                }
                return out;
            },
        };
        let record = seal_record(suite, key, iv, seq_no, content_type, chunk);
        out.extend_from_slice(record.as_slice());
        proof {
            assert(data@.skip(i as int).skip(k as int) =~= data@.skip(i as int + k as int));
            assert((((seq_no + 1) as int) % 0x10000000000000000) as u64 == seq_no + 1);
            assert(spec_sealed_stream(
                *suite,
                key@,
                iv@,
                seq_no,
                content_type,
                data@.skip(i as int),
            ) == spec_sealed_record(*suite, key@, iv@, seq_no, content_type, chunk@)
                + spec_sealed_stream(
                *suite,
                key@,
                iv@,
                (seq_no + 1) as u64,
                content_type,
                data@.skip(i as int + k as int),
            ));
            assert(fragment_count((i + k) as nat) == fragment_count(i as nat) + 1)
                by (nonlinear_arith)
                requires
                    0 <= i,
                    i as int % MAX_RECORD_PAYLOAD as int == 0,
                    1 <= k <= MAX_RECORD_PAYLOAD,
                    k == MAX_RECORD_PAYLOAD || i + k == data@.len(),
                    i + k <= data@.len(),
            ;
            assert((i + k) as int % MAX_RECORD_PAYLOAD as int == 0 || i + k == data@.len())
                by (nonlinear_arith)
                requires
                    0 <= i,
                    i as int % MAX_RECORD_PAYLOAD as int == 0,
                    1 <= k <= MAX_RECORD_PAYLOAD,
                    k == MAX_RECORD_PAYLOAD || i + k == data@.len(),
            ;
        }
        i = i + k;
    }
    proof {
        assert(data@.skip(data@.len() as int) =~= Seq::<u8>::empty());
        assert(fragment_count(data@.len()) == fragment_count(data@.len()))
    }
    out
}

} // verus!
