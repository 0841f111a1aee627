use tinytls::cipher_suite::{CipherSuite, SimpleSuite};
use tinytls::key_schedule::{KeySchedule, Phase};
use tinytls::record::{
    open_record, seal_record, seal_stream, Reassembler, SequenceCounter,
    CONTENT_APPLICATION_DATA,
};
use tinytls::TlsError;

fn app_phase_schedule() -> KeySchedule<SimpleSuite> {
    let mut ks = KeySchedule::new(SimpleSuite);
    ks.advance_handshake(b"shared-secret", b"hash-one");
    ks
}

#[test]
fn sealed_record_opens_to_its_payload() {
    let ks = app_phase_schedule();
    let (key, iv) = ks.client_keys();
    let payload = b"application bytes";
    let record = seal_record(&SimpleSuite, key, iv, 0, CONTENT_APPLICATION_DATA, payload);
    let (t, plain) = open_record(&SimpleSuite, key, iv, 0, record.as_slice()).unwrap();
    assert_eq!(t, CONTENT_APPLICATION_DATA);
    assert_eq!(plain.as_slice(), payload);
}

#[test]
fn any_single_bit_flip_breaks_authentication() {
    let ks = app_phase_schedule();
    let (key, iv) = ks.client_keys();
    let payload = b"short";
    let record = seal_record(&SimpleSuite, key, iv, 7, CONTENT_APPLICATION_DATA, payload);
    // Flip each bit of the ciphertext and tag (everything after the
    // 5-byte header) in turn; every flip must be rejected.
    for pos in 5..record.len() {
        for bit in 0..8 {
            let mut tampered = record.clone();
            tampered[pos] ^= 1u8 << bit;
            let r = open_record(&SimpleSuite, key, iv, 7, tampered.as_slice());
            assert!(r.is_err(), "bit {} of byte {} was accepted", bit, pos);
        }
    }
}

#[test]
fn wrong_sequence_number_fails_to_open() {
    let ks = app_phase_schedule();
    let (key, iv) = ks.client_keys();
    let record = seal_record(&SimpleSuite, key, iv, 3, CONTENT_APPLICATION_DATA, b"data");
    assert!(open_record(&SimpleSuite, key, iv, 4, record.as_slice()).is_err());
    assert!(open_record(&SimpleSuite, key, iv, 3, record.as_slice()).is_ok());
}

#[test]
fn keys_of_a_new_phase_do_not_open_old_records() {
    let mut ks = KeySchedule::new(SimpleSuite);
    ks.advance_handshake(b"shared-secret", b"hash-one");
    let hs_key = ks.client_keys().0.clone();
    let hs_iv = ks.client_keys().1.clone();
    let sealed_hs = seal_record(
        &SimpleSuite,
        hs_key.as_slice(),
        hs_iv.as_slice(),
        0,
        CONTENT_APPLICATION_DATA,
        b"early bytes",
    );
    ks.advance_application(b"hash-two");
    let (app_key, app_iv) = ks.client_keys();
    // Old record does not open under the new keys.
    assert!(open_record(&SimpleSuite, app_key, app_iv, 0, sealed_hs.as_slice()).is_err());
    // New record does not open under the old keys.
    let sealed_app = seal_record(&SimpleSuite, app_key, app_iv, 0, CONTENT_APPLICATION_DATA, b"late");
    assert!(open_record(
        &SimpleSuite,
        hs_key.as_slice(),
        hs_iv.as_slice(),
        0,
        sealed_app.as_slice()
    )
    .is_err());
    assert_eq!(ks.current_phase(), Phase::Application);
}

#[test]
fn malformed_record_header_is_rejected() {
    let ks = app_phase_schedule();
    let (key, iv) = ks.client_keys();
    let mut record = seal_record(&SimpleSuite, key, iv, 0, CONTENT_APPLICATION_DATA, b"x");
    record[1] = 2; // wrong version
    assert_eq!(
        open_record(&SimpleSuite, key, iv, 0, record.as_slice()),
        Err(TlsError::InvalidRecord)
    );
    let short = [22u8, 3, 3];
    assert_eq!(
        open_record(&SimpleSuite, key, iv, 0, &short),
        Err(TlsError::InvalidRecord)
    );
}

#[test]
fn sequence_counter_hands_out_consecutive_numbers() {
    let mut c = SequenceCounter::new();
    assert_eq!(c.take_next(), Ok(0));
    assert_eq!(c.take_next(), Ok(1));
    assert_eq!(c.take_next(), Ok(2));
}

#[test]
fn reassembler_splits_message_across_pushes() {
    let mut r = Reassembler::new(64);
    // Handshake message: type 8, length 3, body [1,2,3]; arrives in two
    // record-sized pieces, followed by the start of another message.
    r.push_bytes(&[8, 0, 0]).unwrap();
    assert!(r.take_message().is_none());
    r.push_bytes(&[3, 1, 2]).unwrap();
    assert!(r.take_message().is_none());
    r.push_bytes(&[3, 20]).unwrap();
    let (t, body) = r.take_message().unwrap();
    assert_eq!(t, 8);
    assert_eq!(body.as_slice(), &[1, 2, 3]);
    // The next message's first byte is still buffered.
    assert!(r.take_message().is_none());
}

#[test]
fn reassembler_fails_beyond_capacity_without_resizing() {
    let mut r = Reassembler::new(4);
    r.push_bytes(&[1, 2, 3]).unwrap();
    assert_eq!(r.push_bytes(&[4, 5]), Err(TlsError::InsufficientSpace));
    r.push_bytes(&[4]).unwrap();
}

#[test]
fn hash_and_derive_are_deterministic_and_sized() {
    let h1 = SimpleSuite.hash(b"abc");
    let h2 = SimpleSuite.hash(b"abc");
    let h3 = SimpleSuite.hash(b"abd");
    assert_eq!(h1, h2);
    assert_ne!(h1, h3);
    assert_eq!(h1.len(), SimpleSuite.hash_len());
    let k1 = SimpleSuite.derive(b"s", b"l", b"c", 16);
    let k2 = SimpleSuite.derive(b"s", b"l", b"c", 16);
    let k3 = SimpleSuite.derive(b"s", b"m", b"c", 16);
    assert_eq!(k1, k2);
    assert_ne!(k1, k3);
    assert_eq!(k1.len(), 16);
}

#[test]
fn long_writes_are_fragmented_and_reassemble() {
    let ks = app_phase_schedule();
    let (key, iv) = ks.client_keys();
    let mut counter = SequenceCounter::new();
    // Three fragments: two full records and a remainder.
    let data = vec![0xabu8; 16384 * 2 + 100];
    let stream = seal_stream(
        &SimpleSuite,
        key,
        iv,
        &mut counter,
        CONTENT_APPLICATION_DATA,
        data.as_slice(),
    );
    assert_eq!(counter.take_next(), Ok(3));
    // Walk the stream record by record and collect the plaintext.
    let mut collected: Vec<u8> = Vec::new();
    let mut offset = 0usize;
    let mut seq = 0u64;
    while offset < stream.len() {
        let declared = stream[offset + 3] as usize * 256 + stream[offset + 4] as usize;
        let record = &stream[offset..offset + 5 + declared];
        let (t, plain) = open_record(&SimpleSuite, key, iv, seq, record).unwrap();
        assert_eq!(t, CONTENT_APPLICATION_DATA);
        collected.extend_from_slice(plain.as_slice());
        offset += 5 + declared;
        seq += 1;
    }
    assert_eq!(seq, 3);
    assert_eq!(collected, data);
}

#[test]
fn schedule_phases_move_strictly_forward() {
    let mut ks = KeySchedule::new(SimpleSuite);
    assert_eq!(ks.current_phase(), Phase::Initial);
    ks.advance_early(b"pre-shared-key");
    assert_eq!(ks.current_phase(), Phase::Early);
    ks.advance_handshake(b"shared", b"hash-one");
    assert_eq!(ks.current_phase(), Phase::Handshake);
    ks.advance_application(b"hash-two");
    assert_eq!(ks.current_phase(), Phase::Application);
    ks.close();
    assert_eq!(ks.current_phase(), Phase::Closed);
    assert!(ks.client_keys().0.is_empty());
}
