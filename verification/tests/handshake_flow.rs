use tinytls::cipher_suite::SimpleSuite;
use tinytls::handshake::{
    Handshake, HandshakeState, HANDSHAKE_CERTIFICATE, HANDSHAKE_CERTIFICATE_VERIFY,
    HANDSHAKE_ENCRYPTED_EXTENSIONS,
};
use tinytls::key_schedule::KeySchedule;
use tinytls::TlsError;

/// Drives a handshake to the point where the server's finished message is
/// expected, mirroring the key schedule on the "server" side so the test
/// can produce correct (or corrupted) verify data.
fn reach_finished() -> (Handshake<SimpleSuite>, KeySchedule<SimpleSuite>) {
    let mut h = Handshake::new(SimpleSuite, 4096);
    let mut mirror = KeySchedule::new(SimpleSuite);
    h.client_hello_sent(b"client-hello-body").unwrap();
    h.on_server_hello(b"server-hello-body", b"shared-secret").unwrap();
    mirror.advance_handshake(b"shared-secret", h.transcript_hash().as_slice());
    h.on_server_message(HANDSHAKE_ENCRYPTED_EXTENSIONS, b"ee-body", true).unwrap();
    h.on_server_message(HANDSHAKE_CERTIFICATE, b"cert-body", true).unwrap();
    h.on_server_message(HANDSHAKE_CERTIFICATE_VERIFY, b"cv-body", true).unwrap();
    (h, mirror)
}

#[test]
fn full_handshake_reaches_connected() {
    let (mut h, mirror) = reach_finished();
    let expected = mirror.finished_verify_data(h.transcript_hash().as_slice());
    h.on_server_finished(expected.as_slice()).unwrap();
    assert_eq!(h.current_state(), HandshakeState::ServerFinishedReceived);
    let verify = h.send_client_finished().unwrap();
    assert!(!verify.is_empty());
    assert_eq!(h.current_state(), HandshakeState::ClientFinishedSent);
    h.complete().unwrap();
    assert_eq!(h.current_state(), HandshakeState::Connected);
    assert!(h.write_keys().is_ok());
    assert!(h.read_keys().is_ok());
}

#[test]
fn finished_with_transcript_mismatch_fails_for_good() {
    let (mut h, mirror) = reach_finished();
    let mut wrong = mirror.finished_verify_data(h.transcript_hash().as_slice());
    wrong[0] ^= 0x01;
    assert_eq!(h.on_server_finished(wrong.as_slice()), Err(TlsError::CryptoError));
    assert_eq!(h.current_state(), HandshakeState::Failed);
    // No application data moves afterwards.
    assert_eq!(h.write_keys().err(), Some(TlsError::ConnectionClosed));
    assert_eq!(h.read_keys().err(), Some(TlsError::ConnectionClosed));
    assert!(h.send_client_finished().is_err());
    assert!(h.complete().is_err());
}

#[test]
fn unexpected_message_type_fails_the_handshake() {
    let mut h = Handshake::new(SimpleSuite, 4096);
    h.client_hello_sent(b"ch").unwrap();
    h.on_server_hello(b"sh", b"ss").unwrap();
    // A certificate before encrypted extensions is out of order.
    assert_eq!(
        h.on_server_message(HANDSHAKE_CERTIFICATE, b"cert", true),
        Err(TlsError::UnexpectedMessage)
    );
    assert_eq!(h.current_state(), HandshakeState::Failed);
}

#[test]
fn invalid_message_fails_even_with_expected_type() {
    let mut h = Handshake::new(SimpleSuite, 4096);
    h.client_hello_sent(b"ch").unwrap();
    h.on_server_hello(b"sh", b"ss").unwrap();
    assert_eq!(
        h.on_server_message(HANDSHAKE_ENCRYPTED_EXTENSIONS, b"ee", false),
        Err(TlsError::CryptoError)
    );
    assert_eq!(h.current_state(), HandshakeState::Failed);
}

#[test]
fn alert_is_terminal_and_discards_keys() {
    let (mut h, mirror) = reach_finished();
    let expected = mirror.finished_verify_data(h.transcript_hash().as_slice());
    h.on_server_finished(expected.as_slice()).unwrap();
    h.send_client_finished().unwrap();
    h.complete().unwrap();
    h.on_alert(false);
    assert_eq!(h.current_state(), HandshakeState::Closed);
    assert_eq!(h.write_keys().err(), Some(TlsError::ConnectionClosed));
    let mut h2 = Handshake::new(SimpleSuite, 4096);
    h2.on_alert(true);
    assert_eq!(h2.current_state(), HandshakeState::Failed);
}

#[test]
fn transcript_overflow_is_insufficient_space() {
    let mut h = Handshake::new(SimpleSuite, 8);
    assert_eq!(
        h.client_hello_sent(b"a-body-larger-than-the-area"),
        Err(TlsError::InsufficientSpace)
    );
    assert_eq!(h.current_state(), HandshakeState::Failed);
}

#[test]
fn client_hello_twice_is_unexpected() {
    let mut h = Handshake::new(SimpleSuite, 4096);
    h.client_hello_sent(b"ch").unwrap();
    assert_eq!(h.client_hello_sent(b"ch"), Err(TlsError::UnexpectedMessage));
    assert_eq!(h.current_state(), HandshakeState::Failed);
}

#[test]
fn orderly_close_goes_through_closing() {
    let (mut h, mirror) = reach_finished();
    let expected = mirror.finished_verify_data(h.transcript_hash().as_slice());
    h.on_server_finished(expected.as_slice()).unwrap();
    h.send_client_finished().unwrap();
    h.complete().unwrap();
    h.start_close();
    assert_eq!(h.current_state(), HandshakeState::Closing);
    // Application traffic no longer moves while closing.
    assert_eq!(h.write_keys().err(), Some(TlsError::ConnectionClosed));
    // The peer's close-notify finishes the close.
    h.on_alert(false);
    assert_eq!(h.current_state(), HandshakeState::Closed);
    // Before Connected, start_close changes nothing.
    let mut early = Handshake::new(SimpleSuite, 64);
    early.start_close();
    assert_eq!(early.current_state(), HandshakeState::Start);
}
