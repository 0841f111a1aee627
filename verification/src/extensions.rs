//! The extension codec: type-tagged, length-prefixed sub-structures of
//! handshake messages, each independently parseable and encodable.
//!
//! Wire layout of a list: a 16-bit total length, then for each extension a
//! 16-bit type tag, a 16-bit payload length and the payload. A known tag is
//! parsed into its structured form; an unknown tag is kept as opaque bytes,
//! so it still round-trips.
use vstd::prelude::*;

pub mod alpn;

use crate::TlsError;
use crate::buffer::CryptoBuffer;
use crate::extensions::alpn::{
    ALPNList,
    alpn_encoding,
    lemma_protocols_parse_encode,
    spec_parse_alpn,
    spec_parse_protocols,
};
use crate::parse_buffer::{ParseBuffer, ParseError};
use crate::wire::{be_u16, u16_value};

verus! {

/// The 16-bit extension type tag of application-layer protocol negotiation.
pub const ALPN_EXTENSION_TYPE: u16 = 16;

/// The most extensions one list holds.
pub const MAX_EXTENSIONS: usize = 16;

/// One extension: the structured form for a known tag, opaque bytes for an
/// unknown one.
pub enum Extension<'a, const N: usize> {
    /// Application-layer protocol negotiation.
    ApplicationProtocols(ALPNList<'a, N>),
    /// Any tag this codec does not interpret; kept as raw payload bytes.
    Unknown { extension_type: u16, data: &'a [u8] },
}

impl<'a, const N: usize> Extension<'a, N> {
    /// The 16-bit type tag.
    pub open spec fn tag(&self) -> nat {
        match *self {
            Extension::ApplicationProtocols(_) => ALPN_EXTENSION_TYPE as nat,
            Extension::Unknown { extension_type, .. } => extension_type as nat,
        }
    }

    /// The payload bytes this extension stands for on the wire.
    pub open spec fn payload(&self) -> Seq<u8> {
        match *self {
            Extension::ApplicationProtocols(l) => alpn_encoding(l.names()),
            Extension::Unknown { data, .. } => data@,
        }
    }

    /// The tag and payload pair: the wire-level view of the extension.
    pub open spec fn tag_payload(&self) -> (nat, Seq<u8>) {
        (self.tag(), self.payload())
    }

    pub open spec fn wf(&self) -> bool {
        &&& self.payload().len() <= 0xffff
        &&& match *self {
            Extension::ApplicationProtocols(l) => l.wf(),
            Extension::Unknown { extension_type, .. } => extension_type != ALPN_EXTENSION_TYPE,
        }
    }

    /// The payload fits its 16-bit length field and, for a protocol list,
    /// the list respects its bound and every name fits its length byte. A
    /// well-formed extension is encodable.
    pub open spec fn encodable(&self) -> bool {
        &&& self.payload().len() <= 0xffff
        &&& match *self {
            Extension::ApplicationProtocols(l) => l.names().len() <= N && (forall|i: int|
                0 <= i < l.names().len() ==> (#[trigger] l.names()[i]).len() <= 255),
            Extension::Unknown { .. } => true,
        }
    }
}

impl<'a, const N: usize> Extension<'a, N> {
    /// A well-formed extension is encodable.
    pub proof fn lemma_wf_encodable(&self)
        requires
            self.wf(),
        ensures
            self.encodable(),
    {
        match *self {
            Extension::ApplicationProtocols(l) => {
                assert forall|i: int|
                    0 <= i < l.names().len() implies (#[trigger] l.names()[i]).len() <= 255 by {
                    assert(l.names()[i] == l.protocol_list@[i].bytes_view());
                    assert(l.protocol_list@[i].wf());
                }
            },
            Extension::Unknown { .. } => {},
        }
    }
}

/// The encoding of one tag and payload pair.
pub open spec fn extension_encoding(item: (nat, Seq<u8>)) -> Seq<u8> {
    be_u16(item.0) + be_u16(item.1.len()) + item.1
}

/// The encoding of a list of tag and payload pairs, one after the other.
pub open spec fn extensions_encoding(items: Seq<(nat, Seq<u8>)>) -> Seq<u8>
    decreases items.len(),
{
    if items.len() == 0 {
        Seq::empty()
    } else {
        extension_encoding(items[0]) + extensions_encoding(items.skip(1))
    }
}

/// An item can go on the wire: the tag fits 16 bits and the payload its
/// 16-bit length field.
pub open spec fn extension_item_valid(item: (nat, Seq<u8>)) -> bool {
    item.0 < 0x10000 && item.1.len() <= 0xffff
}

pub open spec fn extension_items_valid(items: Seq<(nat, Seq<u8>)>) -> bool {
    forall|i: int| 0 <= i < items.len() ==> extension_item_valid(#[trigger] items[i])
}

/// What parsing one extension from the front of `s` yields: its tag and
/// payload and how many bytes it took.
pub open spec fn spec_parse_extension(s: Seq<u8>) -> Option<((nat, Seq<u8>), int)> {
    if s.len() < 4 {
        None
    } else {
        let tag = u16_value(s[0], s[1]);
        let plen = u16_value(s[2], s[3]) as int;
        if s.len() < 4 + plen {
            None
        } else {
            Some(((tag, s.subrange(4, 4 + plen)), 4 + plen))
        }
    }
}

/// What parsing extensions until `s` is exhausted yields.
pub open spec fn spec_parse_extensions(s: Seq<u8>) -> Option<Seq<(nat, Seq<u8>)>>
    decreases s.len(),
{
    if s.len() == 0 {
        Some(Seq::empty())
    } else {
        match spec_parse_extension(s) {
            Option::None => None,
            Option::Some((item, k)) => match spec_parse_extensions(s.skip(k)) {
                Option::None => None,
                Option::Some(rest) => Some(seq![item] + rest),
            },
        }
    }
}

/// Round trip: parsing the encoding of any valid list of extensions yields
/// exactly those tag and payload pairs.
pub proof fn lemma_extensions_round_trip(items: Seq<(nat, Seq<u8>)>)
    requires
        extension_items_valid(items),
    ensures
        spec_parse_extensions(extensions_encoding(items)) == Some(items),
    decreases items.len(),
{
    let enc = extensions_encoding(items);
    if items.len() == 0 {
        assert(enc.len() == 0);
        assert(Seq::<(nat, Seq<u8>)>::empty() =~= items);
    } else {
        let (tag, payload) = items[0];
        let k = 4 + payload.len() as int;
        assert(enc =~= extension_encoding(items[0]) + extensions_encoding(items.skip(1)));
        crate::wire::lemma_be_u16_value(tag);
        crate::wire::lemma_be_u16_value(payload.len());
        assert(u16_value(enc[0], enc[1]) == tag);
        assert(u16_value(enc[2], enc[3]) == payload.len());
        assert(enc.subrange(4, k) =~= payload);
        assert(spec_parse_extension(enc) == Some(((tag, payload), k)));
        assert(enc.skip(k) =~= extensions_encoding(items.skip(1)));
        assert(extension_items_valid(items.skip(1)));
        lemma_extensions_round_trip(items.skip(1));
        assert(seq![items[0]] + items.skip(1) =~= items);
    }
}

impl<'a, const N: usize> Extension<'a, N> {
    /// A tag and payload pair this codec can take into structured form: an
    /// ALPN payload parses exactly, into at most `N` names.
    pub open spec fn item_ok(item: (nat, Seq<u8>)) -> bool {
        item.0 == ALPN_EXTENSION_TYPE as nat ==> ({
            let payload = item.1;
            &&& payload.len() >= 2
            &&& payload.len() == 2 + u16_value(payload[0], payload[1])
            &&& (spec_parse_alpn(payload) matches Some(ns) && ns.len() <= N)
        })
    }

    pub open spec fn items_ok(items: Seq<(nat, Seq<u8>)>) -> bool {
        forall|i: int| 0 <= i < items.len() ==> Self::item_ok(#[trigger] items[i])
    }

    /// When one extension parses from the front of `s` into this codec's
    /// structured form.
    pub open spec fn parse_ok(s: Seq<u8>) -> bool {
        match spec_parse_extension(s) {
            Option::None => false,
            Option::Some((item, k)) => Self::item_ok(item),
        }
    }

    /// Reads one extension: tag, payload length, payload. A known tag is
    /// parsed; an unknown one is kept opaque. Succeeds exactly when
    /// [`Extension::parse_ok`] holds of the remaining input.
    pub fn parse(buf: &mut ParseBuffer<'a>) -> (r: Result<Extension<'a, N>, ParseError>)
        requires
            old(buf).wf(),
        ensures
            final(buf).wf(),
            final(buf).input() == old(buf).input(),
            r is Ok <==> Self::parse_ok(old(buf).rest()),
            r matches Ok(e) ==> {
                &&& spec_parse_extension(old(buf).rest()) == Some(
                    (e.tag_payload(), final(buf).cursor() - old(buf).cursor()),
                )
                &&& e.wf()
            },
            spec_parse_extension(old(buf).rest()) is None ==> r == Err::<
                Extension<'a, N>,
                ParseError,
            >(ParseError::InsufficientData),
            ({
                let parsed = spec_parse_extension(old(buf).rest());
                parsed matches Some((item, k)) && item.0 == ALPN_EXTENSION_TYPE as nat
                    && spec_parse_alpn(item.1) is None
            }) ==> r == Err::<Extension<'a, N>, ParseError>(ParseError::InvalidData),
            ({
                let parsed = spec_parse_extension(old(buf).rest());
                parsed matches Some((item, k)) && item.0 == ALPN_EXTENSION_TYPE as nat
                    && (spec_parse_alpn(item.1) matches Some(ns) && ns.len() > N)
            }) ==> r == Err::<Extension<'a, N>, ParseError>(ParseError::CapacityExceeded),
            ({
                let parsed = spec_parse_extension(old(buf).rest());
                parsed matches Some((item, k)) && item.0 == ALPN_EXTENSION_TYPE as nat
                    && (spec_parse_alpn(item.1) matches Some(ns) && ns.len() <= N) && item.1.len()
                    != 2 + u16_value(item.1[0], item.1[1])
            }) ==> r == Err::<Extension<'a, N>, ParseError>(ParseError::InvalidData),
    {
        let ghost rest = old(buf).rest();
        let extension_type = match buf.read_u16() {
            Ok(t) => t,
            Err(e) => {
                return Err(e);
            },
        };
        let payload_length = match buf.read_u16() {
            Ok(n) => n as usize,
            Err(e) => {
                return Err(e);
            },
        };
        let window = match buf.slice(payload_length) {
            Ok(w) => w,
            Err(e) => {
                return Err(e);
            },
        };
        proof {
            assert(window@ =~= rest.subrange(4, 4 + payload_length as int));
            assert(spec_parse_extension(rest) == Some(
                ((extension_type as nat, window@), 4 + payload_length as int),
            ));
        }
        if extension_type == ALPN_EXTENSION_TYPE {
            let mut sub = ParseBuffer::new(window);
            proof {
                assert(sub.rest() =~= window@);
            }
            let list = match ALPNList::<N>::parse(&mut sub) {
                Ok(l) => l,
                Err(ParseError::CapacityExceeded) => {
                    proof {
                        if spec_parse_alpn(window@) is Some {
                            assert(spec_parse_alpn(window@)->Some_0.len() > N);
                        }
                    }
                    return Err(ParseError::CapacityExceeded);
                },
                Err(_) => {
                    return Err(ParseError::InvalidData);
                },
            };
            if sub.remaining() > 0 {
                return Err(ParseError::InvalidData);
            }
            proof {
                let names = list.names();
                assert(spec_parse_alpn(window@) == Some(names));
                let total = u16_value(window@[0], window@[1]) as int;
                assert(window@.len() == 2 + total);
                let body = window@.subrange(2, 2 + total);
                assert(spec_parse_protocols(body) == Some(names));
                lemma_protocols_parse_encode(body);
                crate::wire::lemma_u16_value_be(window@[0], window@[1]);
                assert(alpn_encoding(names) =~= window@);
            }
            Ok(Extension::ApplicationProtocols(list))
        } else {
            Ok(Extension::Unknown { extension_type, data: window })
        }
    }

    /// Writes the tag, the payload length and the payload. Succeeds exactly
    /// when everything fits the capacity; on failure the buffer is
    /// unchanged.
    pub fn encode(&self, buf: &mut CryptoBuffer) -> (r: Result<(), TlsError>)
        requires
            old(buf).wf(),
        ensures
            final(buf).wf(),
            final(buf).cap() == old(buf).cap(),
            r is Ok <==> (old(buf).bytes().len() + 4 + self.payload().len() <= old(buf).cap()
                && self.encodable()),
            r is Ok ==> final(buf).bytes() == old(buf).bytes() + extension_encoding(
                self.tag_payload(),
            ),
            r is Err ==> final(buf).bytes() == old(buf).bytes() && r == Err::<(), TlsError>(
                TlsError::EncodeError,
            ),
    {
        let ghost payload = self.payload();
        let mark = buf.len();
        let tag: u16 = match self {
            Extension::ApplicationProtocols(_) => ALPN_EXTENSION_TYPE,
            Extension::Unknown { extension_type, .. } => *extension_type,
        };
        let tag_bytes: [u8; 2] = [(tag / 256) as u8, (tag % 256) as u8];
        if let Err(e) = buf.extend_from_slice(tag_bytes.as_slice()) {
            return Err(e);
        }
        proof {
            assert((*buf).bytes() =~= old(buf).bytes() + be_u16(tag as nat));
        }
        let res = match self {
            Extension::ApplicationProtocols(l) => buf.with_u16_length(
                |b: &mut CryptoBuffer| -> (out: Result<(), TlsError>)
                    requires
                        (*b).wf(),
                    ensures
                        (*final(b)).wf(),
                        (*final(b)).cap() == (*old(b)).cap(),
                        (*old(b)).bytes().len() <= (*final(b)).bytes().len(),
                        (*final(b)).bytes().take((*old(b)).bytes().len() as int) =~= (*old(
                            b,
                        )).bytes(),
                        out is Ok ==> (*final(b)).bytes() == (*old(b)).bytes() + payload
                            && l.names().len() <= N && (forall|i: int|
                            0 <= i < l.names().len() ==> (#[trigger] l.names()[i]).len() <= 255),
                        out is Err ==> ((*old(b)).bytes().len() + payload.len() > (*old(b)).cap()
                            || payload.len() > 0xffff || l.names().len() > N || exists|i: int|
                            0 <= i < l.names().len() && (#[trigger] l.names()[i]).len() > 255),
                    { l.encode(b) }
            ),
            Extension::Unknown { data, .. } => buf.with_u16_length(
                |b: &mut CryptoBuffer| -> (out: Result<(), TlsError>)
                    requires
                        (*b).wf(),
                    ensures
                        (*final(b)).wf(),
                        (*final(b)).cap() == (*old(b)).cap(),
                        (*old(b)).bytes().len() <= (*final(b)).bytes().len(),
                        (*final(b)).bytes().take((*old(b)).bytes().len() as int) =~= (*old(
                            b,
                        )).bytes(),
                        out is Ok ==> (*final(b)).bytes() == (*old(b)).bytes() + payload,
                        out is Err ==> (*old(b)).bytes().len() + payload.len() > (*old(b)).cap(),
                    { b.extend_from_slice(data) }
            ),
        };
        match res {
            Ok(()) => {
                proof {
                    assert((*buf).bytes() =~= old(buf).bytes() + extension_encoding(
                        self.tag_payload(),
                    ));
                }
                Ok(())
            },
            Err(_) => {
                buf.truncate_to(mark);
                proof {
                    assert((*buf).bytes() =~= old(buf).bytes());
                }
                Err(TlsError::EncodeError)
            },
        }
    }
}

/// What parsing a whole extension list from the front of `s` yields: the
/// 16-bit total length must be present and covered by `s`, and the covered
/// window must parse exactly into extensions.
pub open spec fn spec_parse_extension_list(s: Seq<u8>) -> Option<Seq<(nat, Seq<u8>)>> {
    if s.len() < 2 {
        None
    } else {
        let total = u16_value(s[0], s[1]) as int;
        if s.len() < 2 + total {
            None
        } else {
            spec_parse_extensions(s.subrange(2, 2 + total))
        }
    }
}

/// The whole encoding is at least as long as the encoding of a prefix plus
/// the next extension's own encoding.
#[verifier::rlimit(50)]
pub proof fn lemma_extensions_prefix_len(items: Seq<(nat, Seq<u8>)>, i: int)
    requires
        0 <= i < items.len(),
    ensures
        extensions_encoding(items).len() >= extensions_encoding(items.take(i)).len() + 4
            + items[i].1.len(),
    decreases i,
{
    if i == 0 {
        assert(extensions_encoding(items.take(0)) =~= extensions_encoding(
            Seq::<(nat, Seq<u8>)>::empty(),
        ));
        assert(extensions_encoding(items).len() >= 4 + items[0].1.len());
    } else {
        let tail = items.skip(1);
        lemma_extensions_prefix_len(tail, i - 1);
        assert(tail.take(i - 1) =~= items.take(i).skip(1));
        assert(extensions_encoding(items.take(i)) =~= extension_encoding(items[0])
            + extensions_encoding(items.take(i).skip(1)));
        assert(tail[i - 1] == items[i]);
    }
}

/// Reads a 16-bit total length and then extensions until exactly that many
/// bytes are consumed. Succeeds exactly when the declared window is
/// present, parses exactly into extensions this codec can take, and they
/// fit [`MAX_EXTENSIONS`].
#[verifier::rlimit(50)]
pub fn parse_extension_list<'a, const N: usize>(buf: &mut ParseBuffer<'a>) -> (r: Result<
    Vec<Extension<'a, N>>,
    ParseError,
>)
    requires
        old(buf).wf(),
    ensures
        final(buf).wf(),
        final(buf).input() == old(buf).input(),
        r is Ok <==> (spec_parse_extension_list(old(buf).rest()) matches Some(items) && items.len()
            <= MAX_EXTENSIONS && Extension::<'a, N>::items_ok(items)),
        r matches Ok(v) ==> {
            &&& spec_parse_extension_list(old(buf).rest()) == Some(
                v@.map_values(|e: Extension<'a, N>| e.tag_payload()),
            )
            &&& forall|i: int| 0 <= i < v@.len() ==> (#[trigger] v@[i]).wf()
            &&& final(buf).cursor() == old(buf).cursor() + 2 + u16_value(
                old(buf).rest()[0],
                old(buf).rest()[1],
            )
        },
        old(buf).remaining_spec() < 2 ==> r == Err::<Vec<Extension<'a, N>>, ParseError>(
            ParseError::InsufficientData,
        ) && final(buf).cursor() == old(buf).cursor(),
        ({
            let rest = old(buf).rest();
            rest.len() >= 2 && rest.len() < 2 + u16_value(rest[0], rest[1])
        }) ==> r == Err::<Vec<Extension<'a, N>>, ParseError>(ParseError::InsufficientData),
        ({
            let rest = old(buf).rest();
            rest.len() >= 2 + u16_value(rest[0], rest[1]) && spec_parse_extensions(
                rest.subrange(2, 2 + u16_value(rest[0], rest[1]) as int),
            ) is None
        }) ==> r == Err::<Vec<Extension<'a, N>>, ParseError>(ParseError::InvalidData),
        (spec_parse_extension_list(old(buf).rest()) matches Some(items)
            && !Extension::<'a, N>::items_ok(items)) ==> r == Err::<
            Vec<Extension<'a, N>>,
            ParseError,
        >(ParseError::InvalidData),
        (spec_parse_extension_list(old(buf).rest()) matches Some(items) && Extension::<
            'a,
            N,
        >::items_ok(items) && items.len() > MAX_EXTENSIONS) ==> r == Err::<
            Vec<Extension<'a, N>>,
            ParseError,
        >(ParseError::CapacityExceeded),
{
    let ghost rest = old(buf).rest();
    let total_length = match buf.read_u16() {
        Ok(n) => n as usize,
        Err(e) => {
            return Err(e);
        },
    };
    let window = match buf.slice(total_length) {
        Ok(w) => w,
        Err(e) => {
            return Err(e);
        },
    };
    proof {
        assert(window@ =~= rest.subrange(2, 2 + total_length as int));
    }
    let mut sub = ParseBuffer::new(window);
    let mut extensions: Vec<Extension<'a, N>> = Vec::new();
    proof {
        assert(extensions@.map_values(|e: Extension<'a, N>| e.tag_payload()) =~= Seq::<
            (nat, Seq<u8>),
        >::empty());
        assert(rest.len() >= 2 + total_length as int);
        if spec_parse_extensions(window@) is Some {
            let its0 = spec_parse_extensions(window@)->Some_0;
            assert(Seq::<(nat, Seq<u8>)>::empty() + its0 =~= its0);
        }
        assert(spec_parse_extension_list(rest) == spec_parse_extensions(window@));
        assert(sub.rest() =~= window@);
    }
    while sub.remaining() > 0
        invariant
            sub.wf(),
            sub.input() == window@,
            buf.wf(),
            buf.input() == old(buf).input(),
            buf.cursor() == old(buf).cursor() + 2 + total_length,
            rest == old(buf).rest(),
            rest.len() >= 2 + total_length as int,
            total_length as nat == u16_value(rest[0], rest[1]),
            forall|i: int| 0 <= i < extensions@.len() ==> (#[trigger] extensions@[i]).wf(),
            forall|i: int|
                0 <= i < extensions@.len() ==> Extension::<'a, N>::item_ok(
                    (#[trigger] extensions@[i]).tag_payload(),
                ),
            spec_parse_extension_list(rest) == (match spec_parse_extensions(sub.rest()) {
                Option::Some(more) => Some(
                    extensions@.map_values(|e: Extension<'a, N>| e.tag_payload()) + more,
                ),
                Option::None => None::<Seq<(nat, Seq<u8>)>>,
            }),
        decreases sub.remaining_spec(),
    {
        let ghost sub_rest = sub.rest();
        let ghost done = extensions@.map_values(|e: Extension<'a, N>| e.tag_payload());
        match Extension::<N>::parse(&mut sub) {
            Ok(e) => {
                proof {
                    assert(sub.rest() =~= sub_rest.skip(spec_parse_extension(sub_rest)->Some_0.1));
                    assert(extensions@.push(e).map_values(
                        |q: Extension<'a, N>| q.tag_payload(),
                    ) =~= done + seq![e.tag_payload()]);
                }
                let ghost before = extensions@;
                extensions.push(e);
                proof {
                    assert(spec_parse_extensions(sub_rest) == (
                    match spec_parse_extensions(sub.rest()) {
                        Option::Some(more2) => Some(seq![e.tag_payload()] + more2),
                        Option::None => None::<Seq<(nat, Seq<u8>)>>,
                    }));
                    if spec_parse_extensions(sub.rest()) is Some {
                        let more2 = spec_parse_extensions(sub.rest())->Some_0;
                        assert(before.map_values(|q: Extension<'a, N>| q.tag_payload()) + (seq![
                            e.tag_payload(),
                        ] + more2) =~= extensions@.map_values(
                            |q: Extension<'a, N>| q.tag_payload(),
                        ) + more2);
                    }
                }
            },
            Err(_) => {
                proof {
                    if spec_parse_extension_list(rest) is Some {
                        let items = spec_parse_extension_list(rest)->Some_0;
                        let item0 = spec_parse_extension(sub_rest)->Some_0.0;
                        assert(items[done.len() as int] == item0);
                        assert(!Extension::<'a, N>::item_ok(item0));
                        assert(!Extension::<'a, N>::items_ok(items));
                    }
                }
                return Err(ParseError::InvalidData);
            },
        }
    }
    proof {
        assert(sub.rest() =~= Seq::<u8>::empty());
        assert(spec_parse_extensions(sub.rest()) == Some(Seq::<(nat, Seq<u8>)>::empty()));
        assert(extensions@.map_values(|e: Extension<'a, N>| e.tag_payload()) + Seq::<
            (nat, Seq<u8>),
        >::empty() =~= extensions@.map_values(|e: Extension<'a, N>| e.tag_payload()));
    }
    if extensions.len() > MAX_EXTENSIONS {
        return Err(ParseError::CapacityExceeded);
    }
    Ok(extensions)
}

/// Writes the 16-bit total length and then every extension. Succeeds
/// exactly when the whole list fits the 16-bit length field and the
/// buffer's capacity; on failure the buffer is unchanged.
pub fn encode_extension_list<'a, const N: usize>(
    extensions: &Vec<Extension<'a, N>>,
    buf: &mut CryptoBuffer,
) -> (r: Result<(), TlsError>)
    requires
        old(buf).wf(),
        forall|i: int| 0 <= i < extensions@.len() ==> (#[trigger] extensions@[i]).wf(),
    ensures
        final(buf).wf(),
        final(buf).cap() == old(buf).cap(),
        r is Ok <==> ({
            let enc = extensions_encoding(
                extensions@.map_values(|e: Extension<'a, N>| e.tag_payload()),
            );
            old(buf).bytes().len() + 2 + enc.len() <= old(buf).cap() && enc.len() <= 0xffff
        }),
        r is Ok ==> final(buf).bytes() == old(buf).bytes() + be_u16(
            extensions_encoding(
                extensions@.map_values(|e: Extension<'a, N>| e.tag_payload()),
            ).len(),
        ) + extensions_encoding(extensions@.map_values(|e: Extension<'a, N>| e.tag_payload())),
        r is Err ==> final(buf).bytes() == old(buf).bytes() && r == Err::<(), TlsError>(
            TlsError::EncodeError,
        ),
{
    let ghost items = extensions@.map_values(|e: Extension<'a, N>| e.tag_payload());
    let res = buf.with_u16_length(
        |b: &mut CryptoBuffer| -> (out: Result<(), TlsError>)
            requires
                (*b).wf(),
            ensures
                (*final(b)).wf(),
                (*final(b)).cap() == (*old(b)).cap(),
                (*old(b)).bytes().len() <= (*final(b)).bytes().len(),
                (*final(b)).bytes().take((*old(b)).bytes().len() as int) =~= (*old(b)).bytes(),
                out is Ok ==> (*final(b)).bytes() == (*old(b)).bytes() + extensions_encoding(items),
                out is Err ==> (forall|i: int|
                    0 <= i < extensions@.len() ==> (#[trigger] extensions@[i]).wf()) ==> (*old(
                    b,
                )).bytes().len() + extensions_encoding(items).len() > (*old(b)).cap(),
            {
                let mut i: usize = 0;
                while i < extensions.len()
                    invariant
                        0 <= i <= extensions@.len(),
                        items == extensions@.map_values(|e: Extension<'a, N>| e.tag_payload()),
                        items.len() == extensions@.len(),
                        (*b).wf(),
                        (*b).cap() == (*old(b)).cap(),
                        (*old(b)).bytes().len() <= (*b).bytes().len(),
                        (*b).bytes() == (*old(b)).bytes() + extensions_encoding(
                            items.take(i as int),
                        ),
                    decreases extensions@.len() - i,
                {
                    let e = &extensions[i];
                    proof {
                        assert(items[i as int] == e.tag_payload());
                    }
                    match e.encode(b) {
                        Ok(()) => {
                            proof {
                                lemma_extensions_prefix_append(items, i as int);
                                assert((*b).bytes() =~= (*old(b)).bytes() + extensions_encoding(
                                    items.take(i as int + 1),
                                ));
                            }
                            i = i + 1;
                        },
                        Err(e2) => {
                            proof {
                                if (forall|j: int|
                                    0 <= j < extensions@.len() ==> (
                                    #[trigger] extensions@[j]).wf()) {
                                    extensions@[i as int].lemma_wf_encodable();
                                    lemma_extensions_prefix_len(items, i as int);
                                    assert((*old(b)).bytes().len() + extensions_encoding(
                                        items,
                                    ).len() > (*old(b)).cap());
                                }
                                assert((*b).bytes().take((*old(b)).bytes().len() as int) =~= (*old(
                                    b,
                                )).bytes());
                            }
                            return Err(e2);
                        },
                    }
                }
                proof {
                    assert(items.take(items.len() as int) =~= items);
                    assert((*b).bytes().take((*old(b)).bytes().len() as int) =~= (*old(
                        b,
                    )).bytes());
                }
                Ok(())
            }
    );
    match res {
        Ok(()) => Ok(()),
        Err(_) => Err(TlsError::EncodeError),
    }
}

/// The encoding of one more item is the encoding of the prefix plus that
/// item's own encoding.
pub proof fn lemma_extensions_prefix_append(items: Seq<(nat, Seq<u8>)>, i: int)
    requires
        0 <= i < items.len(),
    ensures
        extensions_encoding(items.take(i + 1)) == extensions_encoding(items.take(i))
            + extension_encoding(items[i]),
{
    lemma_extensions_encoding_append(items.take(i), seq![items[i]]);
    assert(items.take(i) + seq![items[i]] =~= items.take(i + 1));
    assert(seq![items[i]].skip(1) =~= Seq::<(nat, Seq<u8>)>::empty());
    assert(extensions_encoding(seq![items[i]].skip(1)).len() == 0);
    assert(extensions_encoding(seq![items[i]]) =~= extension_encoding(items[i]));
}

/// Concatenating two lists concatenates their encodings.
pub proof fn lemma_extensions_encoding_append(a: Seq<(nat, Seq<u8>)>, b: Seq<(nat, Seq<u8>)>)
    ensures
        extensions_encoding(a + b) == extensions_encoding(a) + extensions_encoding(b),
    decreases a.len(),
{
    if a.len() == 0 {
        assert(a + b =~= b);
        assert(extensions_encoding(a) + extensions_encoding(b) =~= extensions_encoding(b));
    } else {
        assert((a + b).skip(1) =~= a.skip(1) + b);
        lemma_extensions_encoding_append(a.skip(1), b);
        assert(extensions_encoding(a + b) =~= extensions_encoding(a) + extensions_encoding(b));
    }
}

} // verus!
