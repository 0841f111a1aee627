//! Application-layer protocol negotiation: a bounded, ordered list of short
//! ASCII protocol names.
//!
//! Wire layout: a 16-bit total length, then for each name one length byte
//! followed by that many ASCII name bytes.
use vstd::prelude::*;
use vstd::string::StringSliceAdditionalSpecFns;
use crate::TlsError;
use crate::buffer::CryptoBuffer;
use crate::parse_buffer::{ParseBuffer, ParseError};
use crate::wire::{ascii_bytes, be_u8, be_u16, u16_value};

verus! {

/// The encoding of one protocol name: a length byte, then the name.
pub open spec fn protocol_encoding(name: Seq<u8>) -> Seq<u8> {
    be_u8(name.len()) + name
}

/// The encoding of a list of names, one after the other.
pub open spec fn protocols_encoding(names: Seq<Seq<u8>>) -> Seq<u8>
    decreases names.len(),
{
    if names.len() == 0 {
        Seq::empty()
    } else {
        protocol_encoding(names[0]) + protocols_encoding(names.skip(1))
    }
}

/// A name can go on the wire: ASCII, and short enough for its length byte.
pub open spec fn protocol_name_valid(name: Seq<u8>) -> bool {
    name.len() <= 255 && ascii_bytes(name)
}

pub open spec fn protocol_names_valid(names: Seq<Seq<u8>>) -> bool {
    forall|i: int| 0 <= i < names.len() ==> protocol_name_valid(#[trigger] names[i])
}

/// The full list encoding: 16-bit total length, then the names.
pub open spec fn alpn_encoding(names: Seq<Seq<u8>>) -> Seq<u8> {
    be_u16(protocols_encoding(names).len()) + protocols_encoding(names)
}

/// What parsing one name from the front of `s` yields: the name and how
/// many bytes it took, or nothing if `s` is too short or the name is not
/// ASCII.
pub open spec fn spec_parse_protocol(s: Seq<u8>) -> Option<(Seq<u8>, int)> {
    if s.len() < 1 {
        None
    } else {
        let n = s[0] as int;
        if s.len() < 1 + n {
            None
        } else if !ascii_bytes(s.subrange(1, 1 + n)) {
            None
        } else {
            Some((s.subrange(1, 1 + n), 1 + n))
        }
    }
}

/// What parsing names until `s` is exhausted yields.
pub open spec fn spec_parse_protocols(s: Seq<u8>) -> Option<Seq<Seq<u8>>>
    decreases s.len(),
{
    if s.len() == 0 {
        Some(Seq::empty())
    } else {
        match spec_parse_protocol(s) {
            Option::None => None,
            Option::Some((name, k)) => match spec_parse_protocols(s.skip(k)) {
                Option::None => None,
                Option::Some(rest) => Some(seq![name] + rest),
            },
        }
    }
}

/// Concatenating two name lists concatenates their encodings.
pub proof fn lemma_protocols_encoding_append(a: Seq<Seq<u8>>, b: Seq<Seq<u8>>)
    ensures
        protocols_encoding(a + b) == protocols_encoding(a) + protocols_encoding(b),
    decreases a.len(),
{
    if a.len() == 0 {
        assert(a + b =~= b);
        assert(protocols_encoding(a) + protocols_encoding(b) =~= protocols_encoding(b));
    } else {
        assert((a + b).skip(1) =~= a.skip(1) + b);
        lemma_protocols_encoding_append(a.skip(1), b);
        assert(protocols_encoding(a + b) =~= protocols_encoding(a) + protocols_encoding(b));
    }
}

/// Round trip: parsing the encoding of any valid list of protocol names
/// yields exactly those names.
pub proof fn lemma_protocols_round_trip(names: Seq<Seq<u8>>)
    requires
        protocol_names_valid(names),
    ensures
        spec_parse_protocols(protocols_encoding(names)) == Some(names),
    decreases names.len(),
{
    let enc = protocols_encoding(names);
    if names.len() == 0 {
        assert(enc.len() == 0);
        assert(Seq::<Seq<u8>>::empty() =~= names);
    } else {
        let head = names[0];
        let k = 1 + head.len() as int;
        assert(enc =~= protocol_encoding(head) + protocols_encoding(names.skip(1)));
        assert(enc[0] == head.len() as u8);
        assert(enc.subrange(1, k) =~= head);
        assert(spec_parse_protocol(enc) == Some((head, k)));
        assert(enc.skip(k) =~= protocols_encoding(names.skip(1)));
        assert(protocol_names_valid(names.skip(1)));
        lemma_protocols_round_trip(names.skip(1));
        assert(seq![head] + names.skip(1) =~= names);
    }
}


/// The other direction of the round trip: when a byte sequence parses
/// exactly into names, it is their encoding — the wire form is canonical.
pub proof fn lemma_protocols_parse_encode(s: Seq<u8>)
    requires
        spec_parse_protocols(s) is Some,
    ensures
        protocols_encoding(spec_parse_protocols(s)->Some_0) =~= s,
        protocol_names_valid(spec_parse_protocols(s)->Some_0),
    decreases s.len(),
{
    if s.len() == 0 {
        assert(protocols_encoding(spec_parse_protocols(s)->Some_0) =~= s);
    } else {
        let (name, k) = spec_parse_protocol(s)->Some_0;
        lemma_protocols_parse_encode(s.skip(k));
        let rest = spec_parse_protocols(s.skip(k))->Some_0;
        let ns = spec_parse_protocols(s)->Some_0;
        assert(ns == seq![name] + rest);
        assert(ns.skip(1) =~= rest);
        assert(ns[0] == name);
        assert(protocol_encoding(name).len() == k);
        assert(protocols_encoding(ns) =~= protocol_encoding(name) + protocols_encoding(rest));
        assert(protocols_encoding(ns) =~= s);
        assert forall|i: int| 0 <= i < ns.len() implies protocol_name_valid(#[trigger] ns[i]) by {
            if i == 0 {
                assert(ascii_bytes(name));
            } else {
                assert(ns[i] == rest[i - 1]);
            }
        }
    }
}

/// One application-layer protocol name.
#[derive(Debug, Clone, PartialEq)]
pub struct Protocol<'a> {
    pub name: &'a str,
}

/// Checks that every byte of a slice is ASCII.
fn slice_is_ascii(s: &[u8]) -> (r: bool)
    ensures
        r == ascii_bytes(s@),
{
    let mut i: usize = 0;
    while i < s.len()
        invariant
            0 <= i <= s@.len(),
            forall|j: int| 0 <= j < i ==> s@[j] < 128,
        decreases s@.len() - i,
    {
        if s[i] >= 128 {
            return false;
        }
        i = i + 1;
    }
    true
}

/// Relies on `core::str::from_utf8`: ASCII bytes are valid UTF-8, and the
/// resulting string's byte representation is exactly the input bytes.
#[verifier::external_body]
fn str_from_ascii_bytes<'a>(b: &'a [u8]) -> (r: &'a str)
    requires
        ascii_bytes(b@),
    ensures
        r.spec_bytes() == b@,
{
    core::str::from_utf8(b).unwrap_or("")
}

impl<'a> Protocol<'a> {
    /// The name as it stands on the wire.
    pub open spec fn bytes_view(&self) -> Seq<u8> {
        self.name.spec_bytes()
    }

    /// The name fits the wire format.
    pub open spec fn wf(&self) -> bool {
        protocol_name_valid(self.bytes_view())
    }

    /// Reads one length-prefixed ASCII protocol name. Succeeds exactly when
    /// the front of the remaining input is a well-formed name.
    pub fn parse(buf: &mut ParseBuffer<'a>) -> (r: Result<Protocol<'a>, ParseError>)
        requires
            old(buf).wf(),
        ensures
            final(buf).wf(),
            final(buf).input() == old(buf).input(),
            r is Ok <==> spec_parse_protocol(old(buf).rest()) is Some,
            r matches Ok(p) ==> {
                &&& spec_parse_protocol(old(buf).rest()) == Some(
                    (p.bytes_view(), final(buf).cursor() - old(buf).cursor()),
                )
                &&& p.wf()
            },
            r matches Err(e) ==> (e == ParseError::InsufficientData || e
                == ParseError::InvalidData),
            ({
                let rest = old(buf).rest();
                rest.len() >= 1 && rest.len() >= 1 + rest[0] && !ascii_bytes(
                    rest.subrange(1, 1 + rest[0] as int),
                )
            }) ==> r == Err::<Protocol<'a>, ParseError>(ParseError::InvalidData),
            ({
                let rest = old(buf).rest();
                rest.len() < 1 || rest.len() < 1 + rest[0]
            }) ==> r == Err::<Protocol<'a>, ParseError>(ParseError::InsufficientData),
    {
        let ghost rest = old(buf).rest();
        let name_len = match buf.read_u8() {
            Ok(n) => n,
            Err(e) => {
                return Err(e);
            },
        };
        proof {
            assert(rest[0] == name_len);
        }
        let window = match buf.slice(name_len as usize) {
            Ok(w) => w,
            Err(e) => {
                proof {
                    assert(rest.len() < 1 + name_len as int);
                }
                return Err(e);
            },
        };
        proof {
            assert(window@ =~= rest.subrange(1, 1 + name_len as int));
        }
        if slice_is_ascii(window) {
            let name = str_from_ascii_bytes(window);
            Ok(Protocol { name })
        } else {
            Err(ParseError::InvalidData)
        }
    }

    /// Writes the length byte and the name. Succeeds exactly when the name
    /// fits one length byte and the buffer's capacity; on failure the
    /// buffer is unchanged.
    pub fn encode(&self, buf: &mut CryptoBuffer) -> (r: Result<(), TlsError>)
        requires
            old(buf).wf(),
        ensures
            final(buf).wf(),
            final(buf).cap() == old(buf).cap(),
            r is Ok <==> (old(buf).bytes().len() + 1 + self.bytes_view().len() <= old(buf).cap()
                && self.bytes_view().len() <= 255),
            r is Ok ==> final(buf).bytes() == old(buf).bytes() + protocol_encoding(
                self.bytes_view(),
            ),
            r is Err ==> final(buf).bytes() == old(buf).bytes() && r == Err::<(), TlsError>(
                TlsError::EncodeError,
            ),
    {
        let name_bytes = self.name.as_bytes();
        let res = buf.with_u8_length(
            |b: &mut CryptoBuffer| -> (out: Result<(), TlsError>)
                requires
                    (*b).wf(),
                ensures
                    (*final(b)).wf(),
                    (*final(b)).cap() == (*old(b)).cap(),
                    (*old(b)).bytes().len() <= (*final(b)).bytes().len(),
                    (*final(b)).bytes().take((*old(b)).bytes().len() as int) =~= (*old(b)).bytes(),
                    out is Ok ==> (*final(b)).bytes() == (*old(b)).bytes() + name_bytes@
                        && (*old(b)).bytes().len() + name_bytes@.len() <= (*old(b)).cap(),
                    out is Err ==> (*final(b)).bytes() == (*old(b)).bytes()
                        && (*old(b)).bytes().len() + name_bytes@.len() > (*old(b)).cap(),
                { b.extend_from_slice(name_bytes) }
        );
        match res {
            Ok(()) => Ok(()),
            Err(_) => Err(TlsError::EncodeError),
        }
    }
}

/// What parsing a whole ALPN list from the front of `s` yields: the 16-bit
/// total length must be present and covered by `s`, and the covered window
/// must parse exactly into names.
pub open spec fn spec_parse_alpn(s: Seq<u8>) -> Option<Seq<Seq<u8>>> {
    if s.len() < 2 {
        None
    } else {
        let total = u16_value(s[0], s[1]) as int;
        if s.len() < 2 + total {
            None
        } else {
            spec_parse_protocols(s.subrange(2, 2 + total))
        }
    }
}

/// The whole encoding is at least as long as the encoding of a prefix plus
/// the next name's own encoding.
pub proof fn lemma_encoding_prefix_len(names: Seq<Seq<u8>>, i: int)
    requires
        0 <= i < names.len(),
    ensures
        protocols_encoding(names).len() >= protocols_encoding(names.take(i)).len() + 1
            + names[i].len(),
    decreases i,
{
    if i == 0 {
        assert(protocols_encoding(names.take(0)) =~= protocols_encoding(Seq::<Seq<u8>>::empty()));
        assert(protocols_encoding(names).len() >= 1 + names[0].len());
    } else {
        let tail = names.skip(1);
        lemma_encoding_prefix_len(tail, i - 1);
        assert(tail.take(i - 1) =~= names.take(i).skip(1));
        assert(protocols_encoding(names.take(i)) =~= protocol_encoding(names[0])
            + protocols_encoding(names.take(i).skip(1)));
        assert(tail[i - 1] == names[i]);
    }
}

/// A bounded, ordered list of protocol names; it never holds more than `N`.
#[derive(Debug, Clone, PartialEq)]
pub struct ALPNList<'a, const N: usize> {
    pub protocol_list: Vec<Protocol<'a>>,
}

impl<'a> ALPNList<'a, 1> {
    /// The one-element list a client uses to propose a single protocol.
    pub fn single(protocol_name: &'a str) -> (r: ALPNList<'a, 1>)
        ensures
            r.protocol_list@.len() == 1,
            r.protocol_list@[0].name == protocol_name,
            r.names() =~= seq![protocol_name.spec_bytes()],
            protocol_name_valid(protocol_name.spec_bytes()) ==> r.wf(),
    {
        let mut protocol_list: Vec<Protocol<'a>> = Vec::new();
        protocol_list.push(Protocol { name: protocol_name });
        let r = ALPNList { protocol_list };
        proof {
            assert(r.names() =~= seq![protocol_name.spec_bytes()]);
        }
        r
    }
}

impl<'a, const N: usize> ALPNList<'a, N> {
    /// The names held, as wire bytes, in order.
    pub open spec fn names(&self) -> Seq<Seq<u8>> {
        self.protocol_list@.map_values(|p: Protocol<'a>| p.bytes_view())
    }

    /// Within the bound, and every name fits the wire format.
    pub open spec fn wf(&self) -> bool {
        &&& self.protocol_list@.len() <= N
        &&& forall|i: int|
            0 <= i < self.protocol_list@.len() ==> (#[trigger] self.protocol_list@[i]).wf()
    }

    /// Reads a 16-bit total length and then names until exactly that many
    /// bytes are consumed. Succeeds exactly when the declared window is
    /// present, parses exactly into names, and they fit the bound `N`.
    pub fn parse(buf: &mut ParseBuffer<'a>) -> (r: Result<ALPNList<'a, N>, ParseError>)
        requires
            old(buf).wf(),
        ensures
            final(buf).wf(),
            final(buf).input() == old(buf).input(),
            r is Ok <==> (spec_parse_alpn(old(buf).rest()) matches Some(ns) && ns.len() <= N),
            r matches Ok(l) ==> {
                &&& spec_parse_alpn(old(buf).rest()) == Some(l.names())
                &&& l.wf()
                &&& final(buf).cursor() == old(buf).cursor() + 2 + u16_value(
                    old(buf).rest()[0],
                    old(buf).rest()[1],
                )
            },
            old(buf).remaining_spec() < 2 ==> r == Err::<ALPNList<'a, N>, ParseError>(
                ParseError::InsufficientData,
            ) && final(buf).cursor() == old(buf).cursor(),
            ({
                let rest = old(buf).rest();
                rest.len() >= 2 && rest.len() < 2 + u16_value(rest[0], rest[1])
            }) ==> r == Err::<ALPNList<'a, N>, ParseError>(ParseError::InsufficientData),
            ({
                let rest = old(buf).rest();
                rest.len() >= 2 + u16_value(rest[0], rest[1]) && spec_parse_protocols(
                    rest.subrange(2, 2 + u16_value(rest[0], rest[1]) as int),
                ) is None
            }) ==> r == Err::<ALPNList<'a, N>, ParseError>(ParseError::InvalidData),
            (spec_parse_alpn(old(buf).rest()) matches Some(ns) && ns.len() > N) ==> r == Err::<
                ALPNList<'a, N>,
                ParseError,
            >(ParseError::CapacityExceeded),
    {
        let ghost rest = old(buf).rest();
        let data_length = match buf.read_u16() {
            Ok(n) => n as usize,
            Err(e) => {
                return Err(e);
            },
        };
        let window = match buf.slice(data_length) {
            Ok(w) => w,
            Err(e) => {
                return Err(e);
            },
        };
        proof {
            assert(window@ =~= rest.subrange(2, 2 + data_length as int));
        }
        let mut sub = ParseBuffer::new(window);
        let mut protocol_list: Vec<Protocol<'a>> = Vec::new();
        proof {
            assert(protocol_list@.map_values(|p: Protocol<'a>| p.bytes_view())
                =~= Seq::<Seq<u8>>::empty());
            assert(rest.len() >= 2 + data_length as int);
            if spec_parse_protocols(window@) is Some {
                let ns0 = spec_parse_protocols(window@)->Some_0;
                assert(Seq::<Seq<u8>>::empty() + ns0 =~= ns0);
            }
            assert(spec_parse_alpn(rest) == spec_parse_protocols(window@));
            assert(sub.rest() =~= window@);
        }
        while sub.remaining() > 0
            invariant
                sub.wf(),
                sub.input() == window@,
                buf.wf(),
                buf.input() == old(buf).input(),
                buf.cursor() == old(buf).cursor() + 2 + data_length,
                rest == old(buf).rest(),
                rest.len() >= 2 + data_length as int,
                data_length as nat == u16_value(rest[0], rest[1]),
                forall|i: int|
                    0 <= i < protocol_list@.len() ==> (#[trigger] protocol_list@[i]).wf(),
                spec_parse_alpn(rest) == (match spec_parse_protocols(sub.rest()) {
                    Option::Some(more) => Some(
                        protocol_list@.map_values(|p: Protocol<'a>| p.bytes_view()) + more,
                    ),
                    Option::None => None::<Seq<Seq<u8>>>,
                }),
            decreases sub.remaining_spec(),
        {
            let ghost sub_rest = sub.rest();
            match Protocol::parse(&mut sub) {
                Ok(p) => {
                    proof {
                        assert(sub.rest() =~= sub_rest.skip(
                            spec_parse_protocol(sub_rest)->Some_0.1,
                        ));
                        assert(protocol_list@.push(p).map_values(
                            |q: Protocol<'a>| q.bytes_view(),
                        ) =~= protocol_list@.map_values(|q: Protocol<'a>| q.bytes_view()) + seq![
                            p.bytes_view(),
                        ]);
                    }
                    let ghost before = protocol_list@;
                    protocol_list.push(p);
                    proof {
                        assert(spec_parse_protocols(sub_rest) == (
                        match spec_parse_protocols(sub.rest()) {
                            Option::Some(more2) => Some(seq![p.bytes_view()] + more2),
                            Option::None => None::<Seq<Seq<u8>>>,
                        }));
                        if spec_parse_protocols(sub.rest()) is Some {
                            let more2 = spec_parse_protocols(sub.rest())->Some_0;
                            assert(before.map_values(|q: Protocol<'a>| q.bytes_view()) + (seq![
                                p.bytes_view(),
                            ] + more2) =~= protocol_list@.map_values(
                                |q: Protocol<'a>| q.bytes_view(),
                            ) + more2);
                        }
                    }
                },
                Err(_) => {
                    return Err(ParseError::InvalidData);
                },
            }
        }
        proof {
            assert(sub.rest() =~= Seq::<u8>::empty());
            assert(spec_parse_protocols(sub.rest()) == Some(Seq::<Seq<u8>>::empty()));
            assert(protocol_list@.map_values(|p: Protocol<'a>| p.bytes_view())
                + Seq::<Seq<u8>>::empty() =~= protocol_list@.map_values(
                |p: Protocol<'a>| p.bytes_view(),
            ));
        }
        if protocol_list.len() > N {
            return Err(ParseError::CapacityExceeded);
        }
        Ok(ALPNList { protocol_list })
    }

    /// Writes the 16-bit total length and then every name. Succeeds exactly
    /// when the list respects its bound, every name fits its length byte,
    /// and the whole list fits the 16-bit length field and the buffer's
    /// capacity; on failure the buffer is unchanged — never a truncated
    /// list.
    pub fn encode(&self, buf: &mut CryptoBuffer) -> (r: Result<(), TlsError>)
        requires
            old(buf).wf(),
        ensures
            final(buf).wf(),
            final(buf).cap() == old(buf).cap(),
            r is Ok <==> (self.names().len() <= N && old(buf).bytes().len() + 2
                + protocols_encoding(self.names()).len() <= old(buf).cap() && protocols_encoding(
                self.names(),
            ).len() <= 0xffff && (forall|i: int|
                0 <= i < self.names().len() ==> (#[trigger] self.names()[i]).len() <= 255)),
            r is Ok ==> final(buf).bytes() == old(buf).bytes() + alpn_encoding(self.names()),
            r is Err ==> final(buf).bytes() == old(buf).bytes() && r == Err::<(), TlsError>(
                TlsError::EncodeError,
            ),
    {
        let ghost names = self.names();
        if self.protocol_list.len() > N {
            return Err(TlsError::EncodeError);
        }
        let res = buf.with_u16_length(
            |b: &mut CryptoBuffer| -> (out: Result<(), TlsError>)
                requires
                    (*b).wf(),
                ensures
                    (*final(b)).wf(),
                    (*final(b)).cap() == (*old(b)).cap(),
                    (*old(b)).bytes().len() <= (*final(b)).bytes().len(),
                    (*final(b)).bytes().take((*old(b)).bytes().len() as int) =~= (*old(b)).bytes(),
                    out is Ok ==> (*final(b)).bytes() == (*old(b)).bytes() + protocols_encoding(
                        names,
                    ) && (forall|i: int|
                        0 <= i < names.len() ==> (#[trigger] names[i]).len() <= 255),
                    out is Err ==> ((*old(b)).bytes().len() + protocols_encoding(names).len()
                        > (*old(b)).cap() || exists|i: int|
                        0 <= i < names.len() && (#[trigger] names[i]).len() > 255),
                {
                    let mut i: usize = 0;
                    while i < self.protocol_list.len()
                        invariant
                            0 <= i <= self.protocol_list@.len(),
                            names == self.names(),
                            names.len() == self.protocol_list@.len(),
                            (*b).wf(),
                            (*b).cap() == (*old(b)).cap(),
                            (*old(b)).bytes().len() <= (*b).bytes().len(),
                            (*b).bytes() == (*old(b)).bytes() + protocols_encoding(
                                names.take(i as int),
                            ),
                            forall|j: int| 0 <= j < i ==> (#[trigger] names[j]).len() <= 255,
                        decreases self.protocol_list@.len() - i,
                    {
                        let ghost before = (*b).bytes();
                        let p = &self.protocol_list[i];
                        proof {
                            assert(names[i as int] == p.bytes_view());
                        }
                        match p.encode(b) {
                            Ok(()) => {
                                proof {
                                    lemma_protocols_encoding_append(
                                        names.take(i as int),
                                        seq![names[i as int]],
                                    );
                                    assert(names.take(i as int) + seq![names[i as int]]
                                        =~= names.take(i as int + 1));
                                    assert(seq![names[i as int]].skip(1)
                                        =~= Seq::<Seq<u8>>::empty());
                                    assert(protocols_encoding(seq![names[i as int]].skip(1)).len()
                                        == 0);
                                    assert(protocols_encoding(seq![names[i as int]])
                                        =~= protocol_encoding(names[i as int]));
                                    assert((*b).bytes() =~= (*old(b)).bytes()
                                        + protocols_encoding(names.take(i as int + 1)));
                                }
                                i = i + 1;
                            },
                            Err(e) => {
                                proof {
                                    if names[i as int].len() <= 255 {
                                        lemma_encoding_prefix_len(names, i as int);
                                        assert((*old(b)).bytes().len() + protocols_encoding(
                                            names,
                                        ).len() > (*old(b)).cap());
                                    }
                                    assert((*b).bytes().take((*old(b)).bytes().len() as int)
                                        =~= (*old(b)).bytes());
                                }
                                return Err(e);
                            },
                        }
                    }
                    proof {
                        assert(names.take(names.len() as int) =~= names);
                        assert((*b).bytes().take((*old(b)).bytes().len() as int) =~= (*old(
                            b,
                        )).bytes());
                    }
                    Ok(())
                }
        );
        match res {
            Ok(()) => Ok(()),
            Err(_) => Err(TlsError::EncodeError),
        }
    }
}


} // verus!
