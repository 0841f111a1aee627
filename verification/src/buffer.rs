//! Bounded-capacity output buffer with scoped length-prefix encoding.
//!
//! [`CryptoBuffer`] holds at most `capacity` bytes; a write that would pass
//! the capacity fails and leaves the contents exactly as they were. The
//! `with_*_length` scopes reserve a length field, run a writer over the
//! buffer, and backpatch the field with the number of bytes the writer
//! appended — one left-to-right pass, no pre-computed lengths. A scope that
//! fails (the writer failed, or the body does not fit the field) rolls the
//! buffer back to its state at the start of the scope.
use vstd::prelude::*;
use crate::TlsError;
use crate::wire::{be_u8, be_u16, be_u24};

verus! {

/// A fixed-capacity byte sink.
pub struct CryptoBuffer {
    data: Vec<u8>,
    capacity: usize,
}

/// What every writer handed to a length scope preserves: the bytes already
/// in the buffer stay untouched, the capacity stays, and the buffer stays
/// within it. Everything composed of `CryptoBuffer` operations has this
/// shape.
pub open spec fn scope_preserved(pre: CryptoBuffer, post: CryptoBuffer) -> bool {
    &&& post.wf()
    &&& post.cap() == pre.cap()
    &&& pre.bytes().len() <= post.bytes().len()
    &&& post.bytes().take(pre.bytes().len() as int) =~= pre.bytes()
}

impl CryptoBuffer {
    /// The bytes written so far.
    pub closed spec fn bytes(&self) -> Seq<u8> {
        self.data@
    }

    /// The fixed capacity.
    pub closed spec fn cap(&self) -> int {
        self.capacity as int
    }

    /// The written length never passes the capacity.
    pub open spec fn wf(&self) -> bool {
        self.bytes().len() <= self.cap()
    }

    pub fn new(capacity: usize) -> (r: CryptoBuffer)
        ensures
            r.wf(),
            r.bytes() == Seq::<u8>::empty(),
            r.cap() == capacity,
    {
        CryptoBuffer { data: Vec::new(), capacity }
    }

    pub fn len(&self) -> (n: usize)
        ensures
            n == self.bytes().len(),
    {
        self.data.len()
    }

    pub fn capacity(&self) -> (n: usize)
        ensures
            n == self.cap(),
    {
        self.capacity
    }

    pub fn as_slice(&self) -> (s: &[u8])
        ensures
            s@ == self.bytes(),
    {
        self.data.as_slice()
    }

    /// Appends one byte; fails exactly when the buffer is full, changing
    /// nothing.
    pub fn push(&mut self, b: u8) -> (r: Result<(), TlsError>)
        requires
            old(self).wf(),
        ensures
            final(self).wf(),
            final(self).cap() == old(self).cap(),
            r is Ok ==> final(self).bytes() == old(self).bytes().push(b) && old(
                self,
            ).bytes().len() < old(self).cap(),
            r is Err ==> final(self).bytes() == old(self).bytes() && old(self).bytes().len() == old(
                self,
            ).cap() && r == Err::<(), TlsError>(TlsError::EncodeError),
    {
        if self.data.len() < self.capacity {
            self.data.push(b);
            Ok(())
        } else {
            Err(TlsError::EncodeError)
        }
    }

    /// Appends a whole slice; fails exactly when it would pass the
    /// capacity, changing nothing (no partial write).
    pub fn extend_from_slice(&mut self, s: &[u8]) -> (r: Result<(), TlsError>)
        requires
            old(self).wf(),
        ensures
            final(self).wf(),
            final(self).cap() == old(self).cap(),
            r is Ok ==> final(self).bytes() == old(self).bytes() + s@ && old(self).bytes().len()
                + s@.len() <= old(self).cap(),
            r is Err ==> final(self).bytes() == old(self).bytes() && old(self).bytes().len()
                + s@.len() > old(self).cap() && r == Err::<(), TlsError>(TlsError::EncodeError),
    {
        if s.len() <= self.capacity - self.data.len() {
            self.data.extend_from_slice(s);
            Ok(())
        } else {
            Err(TlsError::EncodeError)
        }
    }

    /// Rolls the buffer back to `n` bytes.
    pub(crate) fn truncate_to(&mut self, n: usize)
        requires
            old(self).wf(),
            n <= old(self).bytes().len(),
        ensures
            final(self).wf(),
            final(self).cap() == old(self).cap(),
            final(self).bytes() == old(self).bytes().take(n as int),
    {
        self.data.truncate(n);
    }

    /// Overwrites one already-written byte (backpatching a reserved length
    /// field).
    fn set_byte(&mut self, i: usize, v: u8)
        requires
            old(self).wf(),
            i < old(self).bytes().len(),
        ensures
            final(self).wf(),
            final(self).cap() == old(self).cap(),
            final(self).bytes() == old(self).bytes().update(i as int, v),
    {
        self.data[i] = v;
    }

    /// Runs `f` inside a scope whose length is written, after the fact,
    /// into one reserved byte in front of what `f` appended. On any failure
    /// the buffer is exactly as it was.
    pub fn with_u8_length<F: FnOnce(&mut CryptoBuffer) -> Result<(), TlsError>>(
        &mut self,
        f: F,
    ) -> (r: Result<(), TlsError>)
        requires
            old(self).wf(),
            forall|b: &mut CryptoBuffer| (*b).wf() ==> call_requires(f, (b,)),
            forall|b: &mut CryptoBuffer, out: Result<(), TlsError>|
                call_ensures(f, (b,), out) ==> scope_preserved(*b, *final(b)),
        ensures
            final(self).wf(),
            final(self).cap() == old(self).cap(),
            r is Err ==> final(self).bytes() == old(self).bytes(),
            r is Ok ==> exists|b: &mut CryptoBuffer, out: Result<(), TlsError>|
                {
                    let body = (*final(b)).bytes().skip(old(self).bytes().len() as int + 1);
                    &&& #[trigger] call_ensures(f, (b,), out)
                    &&& out is Ok
                    &&& (*b).bytes() == old(self).bytes().push(0u8)
                    &&& (*b).cap() == old(self).cap()
                    &&& body.len() <= 0xff
                    &&& final(self).bytes() == old(self).bytes() + be_u8(body.len() as nat) + body
                },
            r is Err ==> (old(self).bytes().len() + 1 > old(self).cap() && r == Err::<(), TlsError>(
                TlsError::EncodeError,
            )) || exists|b: &mut CryptoBuffer, out: Result<(), TlsError>|
                {
                    &&& #[trigger] call_ensures(f, (b,), out)
                    &&& (*b).bytes() == old(self).bytes().push(0u8)
                    &&& (*b).cap() == old(self).cap()
                    &&& (out is Err && r == out || out is Ok && (*final(b)).bytes().len() > old(
                        self,
                    ).bytes().len() + 1 + 0xff && r == Err::<(), TlsError>(TlsError::EncodeError))
                },
    {
        let mark = self.len();
        if let Err(e) = self.push(0) {
            return Err(e);
        }
        let r = f(&mut *self);
        match r {
            Ok(()) => {
                let delta = self.len() - mark - 1;
                if delta > 0xff {
                    self.truncate_to(mark);
                    proof {
                        assert((*self).bytes() =~= old(self).bytes());
                    }
                    return Err(TlsError::EncodeError);
                }
                let ghost written = (*self).bytes();
                self.set_byte(mark, delta as u8);
                proof {
                    let cur = (*self).bytes();
                    assert(written.len() == mark + 1 + delta);
                    assert(cur == written.update(mark as int, delta as u8));
                    assert(written.take(mark as int + 1) =~= old(self).bytes().push(0u8));
                    assert(forall|i: int|
                        0 <= i < mark + 1 ==> written[i] == #[trigger] written.take(
                            mark as int + 1,
                        )[i]);
                    assert(forall|i: int|
                        0 <= i < mark ==> old(self).bytes().push(0u8)[i] == old(self).bytes()[i]);
                    assert(forall|i: int|
                        0 <= i < written.len() && i != mark ==> cur[i] == written[i]);
                    assert(forall|i: int| 0 <= i < mark ==> cur[i] == old(self).bytes()[i]);
                    assert(cur[mark as int] == delta as u8);
                    assert(be_u8(delta as nat)[0] == delta as u8);
                    assert(cur =~= old(self).bytes() + be_u8(delta as nat)
                        + written.skip(mark as int + 1));
                }
                r
            },
            Err(_) => {
                self.truncate_to(mark);
                proof {
                    assert((*self).bytes() =~= old(self).bytes());
                }
                r
            },
        }
    }
    /// Runs `f` inside a scope whose length is written, after the fact,
    /// as a two-byte big-endian field in front of what `f` appended. On any failure
    /// the buffer is exactly as it was.
    pub fn with_u16_length<F: FnOnce(&mut CryptoBuffer) -> Result<(), TlsError>>(
        &mut self,
        f: F,
    ) -> (r: Result<(), TlsError>)
        requires
            old(self).wf(),
            forall|b: &mut CryptoBuffer| (*b).wf() ==> call_requires(f, (b,)),
            forall|b: &mut CryptoBuffer, out: Result<(), TlsError>|
                call_ensures(f, (b,), out) ==> scope_preserved(*b, *final(b)),
        ensures
            final(self).wf(),
            final(self).cap() == old(self).cap(),
            r is Err ==> final(self).bytes() == old(self).bytes(),
            r is Ok ==> exists|b: &mut CryptoBuffer, out: Result<(), TlsError>|
                {
                    let body = (*final(b)).bytes().skip(old(self).bytes().len() as int + 2);
                    &&& #[trigger] call_ensures(f, (b,), out)
                    &&& out is Ok
                    &&& (*b).bytes() == old(self).bytes() + seq![0u8, 0u8]
                    &&& (*b).cap() == old(self).cap()
                    &&& body.len() <= 0xffff
                    &&& final(self).bytes() == old(self).bytes() + be_u16(body.len() as nat) + body
                },
            r is Err ==> (old(self).bytes().len() + 2 > old(self).cap() && r == Err::<(), TlsError>(
                TlsError::EncodeError,
            )) || exists|b: &mut CryptoBuffer, out: Result<(), TlsError>|
                {
                    &&& #[trigger] call_ensures(f, (b,), out)
                    &&& (*b).bytes() == old(self).bytes() + seq![0u8, 0u8]
                    &&& (*b).cap() == old(self).cap()
                    &&& (out is Err && r == out || out is Ok && (*final(b)).bytes().len() > old(
                        self,
                    ).bytes().len() + 2 + 0xffff && r == Err::<(), TlsError>(TlsError::EncodeError))
                },
    {
        let mark = self.len();
        if let Err(e) = self.push(0) {
            return Err(e);
        }
        if let Err(e) = self.push(0) {
            self.truncate_to(mark);
            proof {
                assert((*self).bytes() =~= old(self).bytes());
            }
            return Err(e);
        }
        let r = f(&mut *self);
        match r {
            Ok(()) => {
                let delta = self.len() - mark - 2;
                if delta > 0xffff {
                    self.truncate_to(mark);
                    proof {
                        assert((*self).bytes() =~= old(self).bytes());
                    }
                    return Err(TlsError::EncodeError);
                }
                let ghost written = (*self).bytes();
                self.set_byte(mark, (delta / 256) as u8);
                self.set_byte(mark + 1, (delta % 256) as u8);
                proof {
                    let cur = (*self).bytes();
                    assert(written.len() == mark + 2 + delta);
                    assert(cur == written.update(mark as int, (delta / 256) as u8).update(
                        mark as int + 1,
                        (delta % 256) as u8,
                    ));
                    assert(written.take(mark as int + 2) =~= old(self).bytes() + seq![0u8, 0u8]);
                    assert(forall|i: int|
                        0 <= i < mark + 2 ==> written[i] == #[trigger] written.take(
                            mark as int + 2,
                        )[i]);
                    assert(forall|i: int|
                        0 <= i < mark ==> (old(self).bytes() + seq![0u8, 0u8])[i] == old(
                            self,
                        ).bytes()[i]);
                    assert(forall|i: int|
                        0 <= i < written.len() && i != mark && i != mark + 1 ==> cur[i]
                            == written[i]);
                    assert(forall|i: int| 0 <= i < mark ==> cur[i] == old(self).bytes()[i]);
                    assert(cur[mark as int] == (delta / 256) as u8);
                    assert(cur[mark as int + 1] == (delta % 256) as u8);
                    assert(be_u16(delta as nat)[0] == (delta / 256) as u8);
                    assert(be_u16(delta as nat)[1] == (delta % 256) as u8);
                    assert(cur =~= old(self).bytes() + be_u16(delta as nat)
                        + written.skip(mark as int + 2));
                }
                r
            },
            Err(_) => {
                self.truncate_to(mark);
                proof {
                    assert((*self).bytes() =~= old(self).bytes());
                }
                r
            },
        }
    }

    /// Runs `f` inside a scope whose length is written, after the fact,
    /// as a three-byte big-endian field in front of what `f` appended. On any failure
    /// the buffer is exactly as it was.
    pub fn with_u24_length<F: FnOnce(&mut CryptoBuffer) -> Result<(), TlsError>>(
        &mut self,
        f: F,
    ) -> (r: Result<(), TlsError>)
        requires
            old(self).wf(),
            forall|b: &mut CryptoBuffer| (*b).wf() ==> call_requires(f, (b,)),
            forall|b: &mut CryptoBuffer, out: Result<(), TlsError>|
                call_ensures(f, (b,), out) ==> scope_preserved(*b, *final(b)),
        ensures
            final(self).wf(),
            final(self).cap() == old(self).cap(),
            r is Err ==> final(self).bytes() == old(self).bytes(),
            r is Ok ==> exists|b: &mut CryptoBuffer, out: Result<(), TlsError>|
                {
                    let body = (*final(b)).bytes().skip(old(self).bytes().len() as int + 3);
                    &&& #[trigger] call_ensures(f, (b,), out)
                    &&& out is Ok
                    &&& (*b).bytes() == old(self).bytes() + seq![0u8, 0u8, 0u8]
                    &&& (*b).cap() == old(self).cap()
                    &&& body.len() <= 0xffffff
                    &&& final(self).bytes() == old(self).bytes() + be_u24(body.len() as nat) + body
                },
            r is Err ==> (old(self).bytes().len() + 3 > old(self).cap() && r == Err::<(), TlsError>(
                TlsError::EncodeError,
            )) || exists|b: &mut CryptoBuffer, out: Result<(), TlsError>|
                {
                    &&& #[trigger] call_ensures(f, (b,), out)
                    &&& (*b).bytes() == old(self).bytes() + seq![0u8, 0u8, 0u8]
                    &&& (*b).cap() == old(self).cap()
                    &&& (out is Err && r == out || out is Ok && (*final(b)).bytes().len() > old(
                        self,
                    ).bytes().len() + 3 + 0xffffff && r == Err::<(), TlsError>(TlsError::EncodeError))
                },
    {
        let mark = self.len();
        if let Err(e) = self.push(0) {
            return Err(e);
        }
        if let Err(e) = self.push(0) {
            self.truncate_to(mark);
            proof {
                assert((*self).bytes() =~= old(self).bytes());
            }
            return Err(e);
        }
        if let Err(e) = self.push(0) {
            self.truncate_to(mark);
            proof {
                assert((*self).bytes() =~= old(self).bytes());
            }
            return Err(e);
        }
        let r = f(&mut *self);
        match r {
            Ok(()) => {
                let delta = self.len() - mark - 3;
                if delta > 0xffffff {
                    self.truncate_to(mark);
                    proof {
                        assert((*self).bytes() =~= old(self).bytes());
                    }
                    return Err(TlsError::EncodeError);
                }
                let ghost written = (*self).bytes();
                self.set_byte(mark, (delta / 65536) as u8);
                self.set_byte(mark + 1, (delta / 256 % 256) as u8);
                self.set_byte(mark + 2, (delta % 256) as u8);
                proof {
                    let cur = (*self).bytes();
                    assert(written.len() == mark + 3 + delta);
                    assert(cur == written.update(mark as int, (delta / 65536) as u8).update(
                        mark as int + 1,
                        (delta / 256 % 256) as u8,
                    ).update(mark as int + 2, (delta % 256) as u8));
                    assert(written.take(mark as int + 3) =~= old(self).bytes() + seq![
                        0u8,
                        0u8,
                        0u8,
                    ]);
                    assert(forall|i: int|
                        0 <= i < mark + 3 ==> written[i] == #[trigger] written.take(
                            mark as int + 3,
                        )[i]);
                    assert(forall|i: int|
                        0 <= i < mark ==> (old(self).bytes() + seq![0u8, 0u8, 0u8])[i] == old(
                            self,
                        ).bytes()[i]);
                    assert(forall|i: int|
                        0 <= i < written.len() && i != mark && i != mark + 1 && i != mark + 2
                            ==> cur[i] == written[i]);
                    assert(forall|i: int| 0 <= i < mark ==> cur[i] == old(self).bytes()[i]);
                    assert(cur[mark as int] == (delta / 65536) as u8);
                    assert(cur[mark as int + 1] == (delta / 256 % 256) as u8);
                    assert(cur[mark as int + 2] == (delta % 256) as u8);
                    assert(be_u24(delta as nat)[0] == (delta / 65536) as u8);
                    assert(be_u24(delta as nat)[1] == (delta / 256 % 256) as u8);
                    assert(be_u24(delta as nat)[2] == (delta % 256) as u8);
                    assert(cur =~= old(self).bytes() + be_u24(delta as nat)
                        + written.skip(mark as int + 3));
                }
                r
            },
            Err(_) => {
                self.truncate_to(mark);
                proof {
                    assert((*self).bytes() =~= old(self).bytes());
                }
                r
            },
        }
    }
}

} // verus!
