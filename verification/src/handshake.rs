//! The handshake state machine: sequences the message exchange, keeps the
//! running transcript, triggers the key-schedule milestones, and gates
//! application traffic on a completed handshake.
//!
//! Every received message is appended to the transcript before any
//! validation that depends on transcript state; an unexpected type or a
//! failed check moves the machine to `Failed`, from which nothing moves.
use vstd::prelude::*;
use crate::TlsError;
use crate::cipher_suite::CipherSuite;
use crate::key_schedule::{KeySchedule, Phase};
use crate::wire::be_u24;

verus! {

/// The handshake message type of a client hello.
pub const HANDSHAKE_CLIENT_HELLO: u8 = 1;

/// The handshake message type of a server hello.
pub const HANDSHAKE_SERVER_HELLO: u8 = 2;

/// The handshake message type of encrypted extensions.
pub const HANDSHAKE_ENCRYPTED_EXTENSIONS: u8 = 8;

/// The handshake message type of a certificate.
pub const HANDSHAKE_CERTIFICATE: u8 = 11;

/// The handshake message type of a certificate verify.
pub const HANDSHAKE_CERTIFICATE_VERIFY: u8 = 15;

/// The handshake message type of a finished message.
pub const HANDSHAKE_FINISHED: u8 = 20;

/// Where the client's handshake stands.
#[derive(Clone, Copy, Debug, PartialEq, Eq, Structural)]
pub enum HandshakeState {
    Start,
    ClientHelloSent,
    ServerHelloReceived,
    EncryptedExtensionsReceived,
    CertificateReceived,
    CertificateVerifyReceived,
    ServerFinishedReceived,
    ClientFinishedSent,
    Connected,
    Closing,
    Closed,
    Failed,
}

/// The transition relation on receiving a handshake message: the expected
/// next type moves forward; anything else, or a failed check, fails the
/// connection for good.
pub open spec fn next_state(s: HandshakeState, msg_type: u8, valid: bool) -> HandshakeState {
    if !valid {
        HandshakeState::Failed
    } else {
        match s {
            HandshakeState::ClientHelloSent => if msg_type == HANDSHAKE_SERVER_HELLO {
                HandshakeState::ServerHelloReceived
            } else {
                HandshakeState::Failed
            },
            HandshakeState::ServerHelloReceived => if msg_type
                == HANDSHAKE_ENCRYPTED_EXTENSIONS {
                HandshakeState::EncryptedExtensionsReceived
            } else {
                HandshakeState::Failed
            },
            HandshakeState::EncryptedExtensionsReceived => if msg_type == HANDSHAKE_CERTIFICATE {
                HandshakeState::CertificateReceived
            } else {
                HandshakeState::Failed
            },
            HandshakeState::CertificateReceived => if msg_type == HANDSHAKE_CERTIFICATE_VERIFY {
                HandshakeState::CertificateVerifyReceived
            } else {
                HandshakeState::Failed
            },
            HandshakeState::CertificateVerifyReceived => if msg_type == HANDSHAKE_FINISHED {
                HandshakeState::ServerFinishedReceived
            } else {
                HandshakeState::Failed
            },
            _ => HandshakeState::Failed,
        }
    }
}

/// The wire form of one handshake message: type byte, 24-bit length, body.
pub open spec fn handshake_message(msg_type: u8, body: Seq<u8>) -> Seq<u8> {
    seq![msg_type] + be_u24(body.len()) + body
}

/// A client handshake in progress.
pub struct Handshake<S: CipherSuite> {
    state: HandshakeState,
    transcript: Vec<u8>,
    transcript_capacity: usize,
    schedule: KeySchedule<S>,
}

impl<S: CipherSuite> Handshake<S> {
    pub closed spec fn state(&self) -> HandshakeState {
        self.state
    }

    /// Every handshake message exchanged so far, in wire order.
    pub closed spec fn transcript_view(&self) -> Seq<u8> {
        self.transcript@
    }

    pub closed spec fn transcript_cap(&self) -> int {
        self.transcript_capacity as int
    }

    pub closed spec fn schedule_view(&self) -> KeySchedule<S> {
        self.schedule
    }

    pub open spec fn suite_spec(&self) -> S {
        self.schedule_view().suite_spec()
    }

    /// The transcript stays within its fixed area, the schedule is sound,
    /// and the schedule's phase tracks the machine's state.
    pub open spec fn wf(&self) -> bool {
        &&& self.transcript_view().len() <= self.transcript_cap()
        &&& self.schedule_view().wf()
        &&& match self.state() {
            HandshakeState::Start | HandshakeState::ClientHelloSent => self.schedule_view().phase()
                == Phase::Initial || self.schedule_view().phase() == Phase::Early,
            HandshakeState::ServerHelloReceived | HandshakeState::EncryptedExtensionsReceived
                | HandshakeState::CertificateReceived | HandshakeState::CertificateVerifyReceived
                | HandshakeState::ServerFinishedReceived => self.schedule_view().phase()
                == Phase::Handshake,
            HandshakeState::ClientFinishedSent | HandshakeState::Connected => self.schedule_view().phase()
                == Phase::Application,
            _ => true,
        }
    }

    pub fn current_state(&self) -> (r: HandshakeState)
        ensures
            r == self.state(),
    {
        self.state
    }

    pub fn new(suite: S, transcript_capacity: usize) -> (r: Handshake<S>)
        ensures
            r.wf(),
            r.state() == HandshakeState::Start,
            r.transcript_view() == Seq::<u8>::empty(),
            r.transcript_cap() == transcript_capacity,
            r.suite_spec() == suite,
    {
        Handshake {
            state: HandshakeState::Start,
            transcript: Vec::new(),
            transcript_capacity,
            schedule: KeySchedule::new(suite),
        }
    }

    /// Appends one message, in wire form, to the transcript. Fails when
    /// the fixed transcript area would overflow.
    fn append_transcript(&mut self, msg_type: u8, body: &[u8]) -> (r: Result<(), TlsError>)
        requires
            old(self).transcript_view().len() <= old(self).transcript_cap(),
        ensures
            final(self).state() == old(self).state(),
            final(self).schedule_view() == old(self).schedule_view(),
            final(self).transcript_cap() == old(self).transcript_cap(),
            final(self).transcript_view().len() <= final(self).transcript_cap(),
            r is Ok ==> final(self).transcript_view() == old(self).transcript_view()
                + handshake_message(msg_type, body@),
            r is Err ==> final(self).transcript_view() == old(self).transcript_view() && r == Err::<
                (),
                TlsError,
            >(TlsError::InsufficientSpace),
            r is Ok <==> old(self).transcript_view().len() + 4 + body@.len() <= old(
                self,
            ).transcript_cap() && body@.len() < 0x1000000,
    {
        if body.len() >= 0x1000000 {
            return Err(TlsError::InsufficientSpace);
        }
        if self.transcript_capacity - self.transcript.len() < 4
            || self.transcript_capacity - self.transcript.len() - 4 < body.len() {
            return Err(TlsError::InsufficientSpace);
        }
        let blen = body.len();
        let header: [u8; 4] = [
            msg_type,
            ((blen / 65536) % 256) as u8,
            ((blen / 256) % 256) as u8,
            (blen % 256) as u8,
        ];
        self.transcript.extend_from_slice(header.as_slice());
        self.transcript.extend_from_slice(body);
        proof {
            assert(self.transcript@ =~= old(self).transcript_view() + handshake_message(
                msg_type,
                body@,
            ));
        }
        Ok(())
    }

    /// The hash of the transcript so far.
    pub fn transcript_hash(&self) -> (r: Vec<u8>)
        ensures
            r@ == self.suite_spec().hash_spec(self.transcript_view()),
            r@.len() == self.suite_spec().hash_len_spec(),
    {
        self.schedule.suite().hash(self.transcript.as_slice())
    }

    /// Records the client hello this client sent. The message goes into
    /// the transcript; the machine moves to `ClientHelloSent`.
    pub fn client_hello_sent(&mut self, body: &[u8]) -> (r: Result<(), TlsError>)
        requires
            old(self).wf(),
        ensures
            final(self).wf(),
            old(self).state() != HandshakeState::Start ==> final(self).state()
                == HandshakeState::Failed && r == Err::<(), TlsError>(TlsError::UnexpectedMessage),
            old(self).state() == HandshakeState::Start && r is Ok ==> {
                &&& final(self).state() == HandshakeState::ClientHelloSent
                &&& final(self).transcript_view() == old(self).transcript_view()
                    + handshake_message(HANDSHAKE_CLIENT_HELLO, body@)
            },
            old(self).state() == HandshakeState::Start && r is Err ==> final(self).state()
                == HandshakeState::Failed && r == Err::<(), TlsError>(TlsError::InsufficientSpace),
            r is Ok <==> (old(self).state() == HandshakeState::Start && old(
                self,
            ).transcript_view().len() + 4 + body@.len() <= old(self).transcript_cap()
                && body@.len() < 0x1000000),
    {
        if !matches!(self.state, HandshakeState::Start) {
            self.state = HandshakeState::Failed;
            return Err(TlsError::UnexpectedMessage);
        }
        match self.append_transcript(HANDSHAKE_CLIENT_HELLO, body) {
            Ok(()) => {
                self.state = HandshakeState::ClientHelloSent;
                Ok(())
            },
            Err(e) => {
                self.state = HandshakeState::Failed;
                Err(e)
            },
        }
    }

    /// Takes the server hello: into the transcript first, then the first
    /// key milestone — handshake traffic keys from the shared secret and
    /// the transcript hash at this point.
    pub fn on_server_hello(&mut self, body: &[u8], shared_secret: &[u8]) -> (r: Result<
        (),
        TlsError,
    >)
        requires
            old(self).wf(),
        ensures
            final(self).wf(),
            r is Ok ==> {
                &&& old(self).state() == HandshakeState::ClientHelloSent
                &&& final(self).state() == next_state(
                    old(self).state(),
                    HANDSHAKE_SERVER_HELLO,
                    true,
                )
                &&& final(self).transcript_view() == old(self).transcript_view()
                    + handshake_message(HANDSHAKE_SERVER_HELLO, body@)
                &&& final(self).schedule_view().phase() == Phase::Handshake
            },
            r is Err ==> final(self).state() == HandshakeState::Failed,
            r is Ok <==> (old(self).state() == HandshakeState::ClientHelloSent && old(
                self,
            ).transcript_view().len() + 4 + body@.len() <= old(self).transcript_cap()
                && body@.len() < 0x1000000),
            old(self).state() != HandshakeState::ClientHelloSent ==> r == Err::<(), TlsError>(
                TlsError::UnexpectedMessage,
            ),
            old(self).state() == HandshakeState::ClientHelloSent && r is Err ==> r == Err::<
                (),
                TlsError,
            >(TlsError::InsufficientSpace),
    {
        if !matches!(self.state, HandshakeState::ClientHelloSent) {
            self.state = HandshakeState::Failed;
            return Err(TlsError::UnexpectedMessage);
        }
        if let Err(e) = self.append_transcript(HANDSHAKE_SERVER_HELLO, body) {
            self.state = HandshakeState::Failed;
            return Err(e);
        }
        let hash = self.transcript_hash();
        self.schedule.advance_handshake(shared_secret, hash.as_slice());
        self.state = HandshakeState::ServerHelloReceived;
        Ok(())
    }

    /// Takes one of the server's middle flight messages — encrypted
    /// extensions, certificate, certificate verify. The message goes into
    /// the transcript before its validity (the caller's parse and
    /// signature outcome) is judged; the machine then follows
    /// [`next_state`].
    pub fn on_server_message(&mut self, msg_type: u8, body: &[u8], valid: bool) -> (r: Result<
        (),
        TlsError,
    >)
        requires
            old(self).wf(),
            old(self).state() == HandshakeState::ServerHelloReceived || old(self).state()
                == HandshakeState::EncryptedExtensionsReceived || old(self).state()
                == HandshakeState::CertificateReceived,
            msg_type != HANDSHAKE_FINISHED,
        ensures
            final(self).wf(),
            r is Ok ==> {
                &&& final(self).state() == next_state(old(self).state(), msg_type, valid)
                &&& final(self).state() != HandshakeState::Failed
                &&& final(self).transcript_view() == old(self).transcript_view()
                    + handshake_message(msg_type, body@)
            },
            r is Err ==> final(self).state() == HandshakeState::Failed,
            r is Ok <==> old(self).transcript_view().len() + 4 + body@.len() <= old(
                self,
            ).transcript_cap() && body@.len() < 0x1000000 && valid && next_state(
                old(self).state(),
                msg_type,
                valid,
            ) != HandshakeState::Failed,
            !(old(self).transcript_view().len() + 4 + body@.len() <= old(self).transcript_cap()
                && body@.len() < 0x1000000) ==> r == Err::<(), TlsError>(
                TlsError::InsufficientSpace,
            ),
            (old(self).transcript_view().len() + 4 + body@.len() <= old(self).transcript_cap()
                && body@.len() < 0x1000000 && !valid) ==> r == Err::<(), TlsError>(
                TlsError::CryptoError,
            ),
            (old(self).transcript_view().len() + 4 + body@.len() <= old(self).transcript_cap()
                && body@.len() < 0x1000000 && valid && next_state(old(self).state(), msg_type, valid)
                == HandshakeState::Failed) ==> r == Err::<(), TlsError>(TlsError::UnexpectedMessage),
    {
        if let Err(e) = self.append_transcript(msg_type, body) {
            self.state = HandshakeState::Failed;
            return Err(e);
        }
        if !valid {
            self.state = HandshakeState::Failed;
            return Err(TlsError::CryptoError);
        }
        let next = match self.state {
            HandshakeState::ServerHelloReceived => if msg_type == HANDSHAKE_ENCRYPTED_EXTENSIONS {
                HandshakeState::EncryptedExtensionsReceived
            } else {
                HandshakeState::Failed
            },
            HandshakeState::EncryptedExtensionsReceived => if msg_type == HANDSHAKE_CERTIFICATE {
                HandshakeState::CertificateReceived
            } else {
                HandshakeState::Failed
            },
            _ => if msg_type == HANDSHAKE_CERTIFICATE_VERIFY {
                HandshakeState::CertificateVerifyReceived
            } else {
                HandshakeState::Failed
            },
        };
        self.state = next;
        if matches!(self.state, HandshakeState::Failed) {
            Err(TlsError::UnexpectedMessage)
        } else {
            Ok(())
        }
    }

    /// Takes the server's finished message. It enters the transcript
    /// first; its body must equal the verify data this side expects over
    /// the transcript as it stood before the message. A mismatch is a
    /// failed MAC check: the machine fails and nothing will move again.
    pub fn on_server_finished(&mut self, body: &[u8]) -> (r: Result<(), TlsError>)
        requires
            old(self).wf(),
        ensures
            final(self).wf(),
            r is Ok ==> {
                &&& old(self).state() == HandshakeState::CertificateVerifyReceived
                &&& final(self).state() == HandshakeState::ServerFinishedReceived
                &&& final(self).transcript_view() == old(self).transcript_view()
                    + handshake_message(HANDSHAKE_FINISHED, body@)
                &&& body@ == old(self).schedule_view().suite_spec().derive_spec(
                    old(self).schedule_view().secret_view(),
                    seq![crate::key_schedule::LABEL_FINISHED],
                    old(self).suite_spec().hash_spec(old(self).transcript_view()),
                    old(self).suite_spec().hash_len_spec(),
                )
            },
            r is Err ==> final(self).state() == HandshakeState::Failed,
            r is Ok <==> (old(self).state() == HandshakeState::CertificateVerifyReceived && old(
                self,
            ).transcript_view().len() + 4 + body@.len() <= old(self).transcript_cap()
                && body@.len() < 0x1000000 && body@ == old(
                self,
            ).schedule_view().suite_spec().derive_spec(
                old(self).schedule_view().secret_view(),
                seq![crate::key_schedule::LABEL_FINISHED],
                old(self).suite_spec().hash_spec(old(self).transcript_view()),
                old(self).suite_spec().hash_len_spec(),
            )),
            old(self).state() != HandshakeState::CertificateVerifyReceived ==> r == Err::<
                (),
                TlsError,
            >(TlsError::UnexpectedMessage),
            (old(self).state() == HandshakeState::CertificateVerifyReceived && !(old(
                self,
            ).transcript_view().len() + 4 + body@.len() <= old(self).transcript_cap()
                && body@.len() < 0x1000000)) ==> r == Err::<(), TlsError>(
                TlsError::InsufficientSpace,
            ),
            (old(self).state() == HandshakeState::CertificateVerifyReceived && (old(
                self,
            ).transcript_view().len() + 4 + body@.len() <= old(self).transcript_cap()
                && body@.len() < 0x1000000) && body@ != old(
                self,
            ).schedule_view().suite_spec().derive_spec(
                old(self).schedule_view().secret_view(),
                seq![crate::key_schedule::LABEL_FINISHED],
                old(self).suite_spec().hash_spec(old(self).transcript_view()),
                old(self).suite_spec().hash_len_spec(),
            )) ==> r == Err::<(), TlsError>(TlsError::CryptoError),
    {
        if !matches!(self.state, HandshakeState::CertificateVerifyReceived) {
            self.state = HandshakeState::Failed;
            return Err(TlsError::UnexpectedMessage);
        }
        let hash_before = self.transcript_hash();
        let expected = self.schedule.finished_verify_data(hash_before.as_slice());
        if let Err(e) = self.append_transcript(HANDSHAKE_FINISHED, body) {
            self.state = HandshakeState::Failed;
            return Err(e);
        }
        if !crate::cipher_suite::bytes_equal(body, expected.as_slice()) {
            self.state = HandshakeState::Failed;
            return Err(TlsError::CryptoError);
        }
        self.state = HandshakeState::ServerFinishedReceived;
        Ok(())
    }

    /// Produces this client's finished message body, puts the message in
    /// the transcript, and performs the last key milestone: application
    /// traffic keys over the transcript through the client finished.
    pub fn send_client_finished(&mut self) -> (r: Result<Vec<u8>, TlsError>)
        requires
            old(self).wf(),
        ensures
            final(self).wf(),
            r is Ok ==> {
                &&& old(self).state() == HandshakeState::ServerFinishedReceived
                &&& final(self).state() == HandshakeState::ClientFinishedSent
                &&& final(self).schedule_view().phase() == Phase::Application
            },
            r is Err ==> final(self).state() == HandshakeState::Failed,
            r is Ok <==> (old(self).state() == HandshakeState::ServerFinishedReceived && old(
                self,
            ).transcript_view().len() + 4 + old(self).suite_spec().hash_len_spec() <= old(
                self,
            ).transcript_cap() && old(self).suite_spec().hash_len_spec() < 0x1000000),
            r matches Ok(v) ==> v@ == old(self).schedule_view().suite_spec().derive_spec(
                old(self).schedule_view().secret_view(),
                seq![crate::key_schedule::LABEL_FINISHED],
                old(self).suite_spec().hash_spec(old(self).transcript_view()),
                old(self).suite_spec().hash_len_spec(),
            ),
            old(self).state() != HandshakeState::ServerFinishedReceived ==> r == Err::<
                Vec<u8>,
                TlsError,
            >(TlsError::UnexpectedMessage),
            old(self).state() == HandshakeState::ServerFinishedReceived && r is Err ==> r == Err::<
                Vec<u8>,
                TlsError,
            >(TlsError::InsufficientSpace),
    {
        if !matches!(self.state, HandshakeState::ServerFinishedReceived) {
            self.state = HandshakeState::Failed;
            return Err(TlsError::UnexpectedMessage);
        }
        let hash_before = self.transcript_hash();
        let verify_data = self.schedule.finished_verify_data(hash_before.as_slice());
        if let Err(e) = self.append_transcript(HANDSHAKE_FINISHED, verify_data.as_slice()) {
            self.state = HandshakeState::Failed;
            return Err(e);
        }
        let hash_after = self.transcript_hash();
        self.schedule.advance_application(hash_after.as_slice());
        self.state = HandshakeState::ClientFinishedSent;
        Ok(verify_data)
    }

    /// The handshake is complete; application data may flow.
    pub fn complete(&mut self) -> (r: Result<(), TlsError>)
        requires
            old(self).wf(),
        ensures
            final(self).wf(),
            r is Ok <==> old(self).state() == HandshakeState::ClientFinishedSent,
            r is Ok ==> final(self).state() == HandshakeState::Connected,
            r is Err ==> final(self).state() == HandshakeState::Failed && r == Err::<
                (),
                TlsError,
            >(TlsError::UnexpectedMessage),
    {
        if !matches!(self.state, HandshakeState::ClientFinishedSent) {
            self.state = HandshakeState::Failed;
            return Err(TlsError::UnexpectedMessage);
        }
        self.state = HandshakeState::Connected;
        Ok(())
    }

    /// Begins an orderly local close of an open connection: the caller
    /// seals and sends its close-notify alert with the connection's write
    /// keys first, then calls this; the peer's own close-notify (through
    /// [`Handshake::on_alert`]) then takes the machine to `Closed`. From
    /// any other state this changes nothing.
    pub fn start_close(&mut self)
        requires
            old(self).wf(),
        ensures
            final(self).wf(),
            final(self).state() == (if old(self).state() == HandshakeState::Connected {
                HandshakeState::Closing
            } else {
                old(self).state()
            }),
            final(self).transcript_view() == old(self).transcript_view(),
            final(self).schedule_view() == old(self).schedule_view(),
    {
        if matches!(self.state, HandshakeState::Connected) {
            self.state = HandshakeState::Closing;
        }
    }

    /// A close-notify or fatal alert: a strict terminal event, whatever
    /// was buffered. The key schedule is discarded with the connection.
    pub fn on_alert(&mut self, fatal: bool)
        ensures
            final(self).state() == (if fatal {
                HandshakeState::Failed
            } else {
                HandshakeState::Closed
            }),
            final(self).schedule_view().phase() == Phase::Closed,
            final(self).schedule_view().client_key_view().len() == 0,
            final(self).schedule_view().server_key_view().len() == 0,
    {
        self.schedule.close();
        self.state = if fatal {
            HandshakeState::Failed
        } else {
            HandshakeState::Closed
        };
    }

    /// The keys this side seals application records with. Nothing is
    /// handed out unless the handshake is complete and the connection
    /// open: after `Failed` or `Closed`, no read or write succeeds.
    pub fn write_keys(&self) -> (r: Result<(&Vec<u8>, &Vec<u8>), TlsError>)
        requires
            self.wf(),
        ensures
            r is Ok <==> self.state() == HandshakeState::Connected,
            r matches Ok((k, iv)) ==> k@ == self.schedule_view().client_key_view() && iv@
                == self.schedule_view().client_iv_view() && k@.len()
                == self.suite_spec().key_len_spec() && iv@.len() == self.suite_spec().iv_len_spec(),
            r is Err ==> r == Err::<(&Vec<u8>, &Vec<u8>), TlsError>(TlsError::ConnectionClosed),
    {
        if matches!(self.state, HandshakeState::Connected) {
            Ok(self.schedule.client_keys())
        } else {
            Err(TlsError::ConnectionClosed)
        }
    }

    /// The keys this side opens application records with; same gate as
    /// [`Handshake::write_keys`].
    pub fn read_keys(&self) -> (r: Result<(&Vec<u8>, &Vec<u8>), TlsError>)
        requires
            self.wf(),
        ensures
            r is Ok <==> self.state() == HandshakeState::Connected,
            r matches Ok((k, iv)) ==> k@ == self.schedule_view().server_key_view() && iv@
                == self.schedule_view().server_iv_view() && k@.len()
                == self.suite_spec().key_len_spec() && iv@.len() == self.suite_spec().iv_len_spec(),
            r is Err ==> r == Err::<(&Vec<u8>, &Vec<u8>), TlsError>(TlsError::ConnectionClosed),
    {
        if matches!(self.state, HandshakeState::Connected) {
            Ok(self.schedule.server_keys())
        } else {
            Err(TlsError::ConnectionClosed)
        }
    }
}

} // verus!
