//! The key schedule: derives each phase's directional traffic keys from
//! the running secret and the transcript hash at fixed milestones.
//!
//! Phases move strictly forward. Deriving out of order is ruled out by the
//! contracts: each transition requires the phase it leaves from. Labels are
//! single distinguishing bytes fed to the suite's derivation.
use vstd::prelude::*;
use crate::cipher_suite::CipherSuite;

verus! {

/// Where the schedule stands.
#[derive(Clone, Copy, Debug, PartialEq, Eq, Structural)]
pub enum Phase {
    Initial,
    Early,
    Handshake,
    Application,
    Closed,
}

/// One direction's traffic key material.
pub struct TrafficKeys {
    pub key: Vec<u8>,
    pub iv: Vec<u8>,
}

/// The label byte of the early secret.
pub const LABEL_EARLY: u8 = 1;

/// The label byte of the handshake secret.
pub const LABEL_HANDSHAKE: u8 = 2;

/// The label byte of the application secret.
pub const LABEL_APPLICATION: u8 = 3;

/// The label byte of a client-write traffic key.
pub const LABEL_CLIENT_KEY: u8 = 4;

/// The label byte of a client-write IV.
pub const LABEL_CLIENT_IV: u8 = 5;

/// The label byte of a server-write traffic key.
pub const LABEL_SERVER_KEY: u8 = 6;

/// The label byte of a server-write IV.
pub const LABEL_SERVER_IV: u8 = 7;

/// The label byte of finished verify data.
pub const LABEL_FINISHED: u8 = 8;

pub struct KeySchedule<S: CipherSuite> {
    suite: S,
    phase: Phase,
    secret: Vec<u8>,
    client: TrafficKeys,
    server: TrafficKeys,
}

impl<S: CipherSuite> KeySchedule<S> {
    pub closed spec fn suite_spec(&self) -> S {
        self.suite
    }

    pub closed spec fn phase(&self) -> Phase {
        self.phase
    }

    /// The current running secret.
    pub closed spec fn secret_view(&self) -> Seq<u8> {
        self.secret@
    }

    pub closed spec fn client_key_view(&self) -> Seq<u8> {
        self.client.key@
    }

    pub closed spec fn client_iv_view(&self) -> Seq<u8> {
        self.client.iv@
    }

    pub closed spec fn server_key_view(&self) -> Seq<u8> {
        self.server.key@
    }

    pub closed spec fn server_iv_view(&self) -> Seq<u8> {
        self.server.iv@
    }

    /// The secret always has hash length; traffic keys have the suite's
    /// key and IV lengths whenever a phase with keys is reached.
    pub open spec fn wf(&self) -> bool {
        &&& self.secret_view().len() == self.suite_spec().hash_len_spec()
        &&& (self.phase() == Phase::Handshake || self.phase() == Phase::Application) ==> {
            &&& self.client_key_view().len() == self.suite_spec().key_len_spec()
            &&& self.client_iv_view().len() == self.suite_spec().iv_len_spec()
            &&& self.server_key_view().len() == self.suite_spec().key_len_spec()
            &&& self.server_iv_view().len() == self.suite_spec().iv_len_spec()
        }
    }

    /// A fresh schedule: phase `Initial`, an all-zero running secret, no
    /// traffic keys yet.
    pub fn new(suite: S) -> (r: KeySchedule<S>)
        ensures
            r.wf(),
            r.phase() == Phase::Initial,
            r.suite_spec() == suite,
            r.secret_view() == Seq::new(suite.hash_len_spec(), |i: int| 0u8),
    {
        let n = suite.hash_len();
        let mut secret: Vec<u8> = Vec::new();
        let mut i: usize = 0;
        while i < n
            invariant
                0 <= i <= n,
                secret@ =~= Seq::new(i as nat, |j: int| 0u8),
            decreases n - i,
        {
            secret.push(0);
            proof {
                assert(secret@ =~= Seq::new(i as nat + 1, |j: int| 0u8));
            }
            i = i + 1;
        }
        proof {
            assert(secret@ =~= Seq::new(suite.hash_len_spec(), |j: int| 0u8));
        }
        KeySchedule {
            suite,
            phase: Phase::Initial,
            secret,
            client: TrafficKeys { key: Vec::new(), iv: Vec::new() },
            server: TrafficKeys { key: Vec::new(), iv: Vec::new() },
        }
    }

    /// Absorbs a pre-shared secret before any handshake flight.
    pub fn advance_early(&mut self, psk: &[u8])
        requires
            old(self).wf(),
            old(self).phase() == Phase::Initial,
        ensures
            final(self).wf(),
            final(self).phase() == Phase::Early,
            final(self).suite_spec() == old(self).suite_spec(),
            final(self).secret_view() == old(self).suite_spec().derive_spec(
                old(self).secret_view(),
                seq![LABEL_EARLY],
                psk@,
                old(self).suite_spec().hash_len_spec(),
            ),
    {
        let n = self.suite.hash_len();
        let label: [u8; 1] = [LABEL_EARLY];
        proof {
            assert(label@ =~= seq![LABEL_EARLY]);
        }
        self.secret = self.suite.derive(self.secret.as_slice(), label.as_slice(), psk, n);
        self.phase = Phase::Early;
    }

    /// The first key milestone: the client and server hellos are in the
    /// transcript. Mixes the key-exchange shared secret into the running
    /// secret and derives both directions' handshake traffic keys.
    pub fn advance_handshake(&mut self, shared_secret: &[u8], transcript_hash: &[u8])
        requires
            old(self).wf(),
            old(self).phase() == Phase::Initial || old(self).phase() == Phase::Early,
        ensures
            final(self).wf(),
            final(self).phase() == Phase::Handshake,
            final(self).suite_spec() == old(self).suite_spec(),
            final(self).secret_view() == old(self).suite_spec().derive_spec(
                old(self).secret_view() + shared_secret@,
                seq![LABEL_HANDSHAKE],
                transcript_hash@,
                old(self).suite_spec().hash_len_spec(),
            ),
            Self::keys_derived(old(self).suite_spec(), final(self).secret_view(), transcript_hash@, *final(self)),
    {
        let n = self.suite.hash_len();
        let mut input = Vec::new();
        input.extend_from_slice(self.secret.as_slice());
        input.extend_from_slice(shared_secret);
        proof {
            assert(input@ =~= old(self).secret_view() + shared_secret@);
        }
        let label: [u8; 1] = [LABEL_HANDSHAKE];
        proof {
            assert(label@ =~= seq![LABEL_HANDSHAKE]);
        }
        self.secret = self.suite.derive(input.as_slice(), label.as_slice(), transcript_hash, n);
        self.refresh_traffic_keys(transcript_hash);
        self.phase = Phase::Handshake;
    }

    /// The second key milestone: the handshake is complete through the
    /// finished messages. Advances the running secret and swaps in both
    /// directions' application traffic keys atomically.
    pub fn advance_application(&mut self, transcript_hash: &[u8])
        requires
            old(self).wf(),
            old(self).phase() == Phase::Handshake,
        ensures
            final(self).wf(),
            final(self).phase() == Phase::Application,
            final(self).suite_spec() == old(self).suite_spec(),
            final(self).secret_view() == old(self).suite_spec().derive_spec(
                old(self).secret_view(),
                seq![LABEL_APPLICATION],
                transcript_hash@,
                old(self).suite_spec().hash_len_spec(),
            ),
            Self::keys_derived(old(self).suite_spec(), final(self).secret_view(), transcript_hash@, *final(self)),
    {
        let n = self.suite.hash_len();
        let label: [u8; 1] = [LABEL_APPLICATION];
        proof {
            assert(label@ =~= seq![LABEL_APPLICATION]);
        }
        self.secret = self.suite.derive(
            self.secret.as_slice(),
            label.as_slice(),
            transcript_hash,
            n,
        );
        self.refresh_traffic_keys(transcript_hash);
        self.phase = Phase::Application;
    }

    /// What it means for a schedule's traffic keys to be freshly derived
    /// from `secret` at `transcript`.
    pub open spec fn keys_derived(
        suite: S,
        secret: Seq<u8>,
        transcript: Seq<u8>,
        s: KeySchedule<S>,
    ) -> bool {
        &&& s.client_key_view() == suite.derive_spec(
            secret,
            seq![LABEL_CLIENT_KEY],
            transcript,
            suite.key_len_spec(),
        )
        &&& s.client_iv_view() == suite.derive_spec(
            secret,
            seq![LABEL_CLIENT_IV],
            transcript,
            suite.iv_len_spec(),
        )
        &&& s.server_key_view() == suite.derive_spec(
            secret,
            seq![LABEL_SERVER_KEY],
            transcript,
            suite.key_len_spec(),
        )
        &&& s.server_iv_view() == suite.derive_spec(
            secret,
            seq![LABEL_SERVER_IV],
            transcript,
            suite.iv_len_spec(),
        )
    }

    /// Expands the current secret into both directions' keys and IVs.
    fn refresh_traffic_keys(&mut self, transcript_hash: &[u8])
        requires
            old(self).secret_view().len() == old(self).suite_spec().hash_len_spec(),
        ensures
            final(self).suite_spec() == old(self).suite_spec(),
            final(self).phase() == old(self).phase(),
            final(self).secret_view() == old(self).secret_view(),
            Self::keys_derived(
                old(self).suite_spec(),
                old(self).secret_view(),
                transcript_hash@,
                *final(self),
            ),
            final(self).client_key_view().len() == old(self).suite_spec().key_len_spec(),
            final(self).client_iv_view().len() == old(self).suite_spec().iv_len_spec(),
            final(self).server_key_view().len() == old(self).suite_spec().key_len_spec(),
            final(self).server_iv_view().len() == old(self).suite_spec().iv_len_spec(),
    {
        let key_n = self.suite.key_len();
        let iv_n = self.suite.iv_len();
        let ck: [u8; 1] = [LABEL_CLIENT_KEY];
        let ci: [u8; 1] = [LABEL_CLIENT_IV];
        let sk: [u8; 1] = [LABEL_SERVER_KEY];
        let si: [u8; 1] = [LABEL_SERVER_IV];
        proof {
            assert(ck@ =~= seq![LABEL_CLIENT_KEY]);
            assert(ci@ =~= seq![LABEL_CLIENT_IV]);
            assert(sk@ =~= seq![LABEL_SERVER_KEY]);
            assert(si@ =~= seq![LABEL_SERVER_IV]);
        }
        self.client.key = self.suite.derive(
            self.secret.as_slice(),
            ck.as_slice(),
            transcript_hash,
            key_n,
        );
        self.client.iv = self.suite.derive(
            self.secret.as_slice(),
            ci.as_slice(),
            transcript_hash,
            iv_n,
        );
        self.server.key = self.suite.derive(
            self.secret.as_slice(),
            sk.as_slice(),
            transcript_hash,
            key_n,
        );
        self.server.iv = self.suite.derive(
            self.secret.as_slice(),
            si.as_slice(),
            transcript_hash,
            iv_n,
        );
    }

    /// Verify data for a finished message over the given transcript hash.
    pub fn finished_verify_data(&self, transcript_hash: &[u8]) -> (r: Vec<u8>)
        requires
            self.wf(),
        ensures
            r@ == self.suite_spec().derive_spec(
                self.secret_view(),
                seq![LABEL_FINISHED],
                transcript_hash@,
                self.suite_spec().hash_len_spec(),
            ),
            r@.len() == self.suite_spec().hash_len_spec(),
    {
        let n = self.suite.hash_len();
        let label: [u8; 1] = [LABEL_FINISHED];
        proof {
            assert(label@ =~= seq![LABEL_FINISHED]);
        }
        self.suite.derive(self.secret.as_slice(), label.as_slice(), transcript_hash, n)
    }

    /// Discards the schedule: no key material stays reachable.
    pub fn close(&mut self)
        ensures
            final(self).phase() == Phase::Closed,
            final(self).client_key_view().len() == 0,
            final(self).server_key_view().len() == 0,
    {
        self.client.key = Vec::new();
        self.client.iv = Vec::new();
        self.server.key = Vec::new();
        self.server.iv = Vec::new();
        self.phase = Phase::Closed;
    }

    pub fn current_phase(&self) -> (r: Phase)
        ensures
            r == self.phase(),
    {
        self.phase
    }

    pub fn suite(&self) -> (r: &S)
        ensures
            *r == self.suite_spec(),
    {
        &self.suite
    }

    pub fn client_keys(&self) -> (r: (&Vec<u8>, &Vec<u8>))
        ensures
            r.0@ == self.client_key_view(),
            r.1@ == self.client_iv_view(),
    {
        (&self.client.key, &self.client.iv)
    }

    pub fn server_keys(&self) -> (r: (&Vec<u8>, &Vec<u8>))
        ensures
            r.0@ == self.server_key_view(),
            r.1@ == self.server_iv_view(),
    {
        (&self.server.key, &self.server.iv)
    }
}

} // verus!
