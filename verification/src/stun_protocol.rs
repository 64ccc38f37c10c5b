//! The session traversal (STUN) wire codec: binding requests and
//! responses as framed byte strings, with attribute packing, padding
//! and the exclusive-or address encoding.

use vstd::prelude::*;
use vstd::string::StringSliceAdditionalSpecFns;

use crate::Addr;
use crate::text::octet1;
use crate::text::octet2;
use crate::text::octet3;
use crate::text::octet4;

verus! {

pub const STUN_BINDING_REQUEST: u16 = 0x0001;

pub const STUN_BINDING_RESPONSE: u16 = 0x0101;

pub const STUN_BINDING_ERROR_RESPONSE: u16 = 0x0111;

pub const STUN_ATTR_MAPPED_ADDRESS: u16 = 0x0001;

pub const STUN_ATTR_XOR_MAPPED_ADDRESS: u16 = 0x0020;

pub const STUN_ATTR_SOFTWARE: u16 = 0x8022;

pub const STUN_ATTR_ERROR_CODE: u16 = 0x0009;

pub const STUN_MAGIC_COOKIE: u32 = 0x2112A442;

/// One attribute: a type, the claimed value length, and the value.
#[derive(Debug)]
pub struct StunAttribute {
    pub attr_type: u16,
    pub length: u16,
    pub value: Vec<u8>,
}

/// The mathematical form of an attribute.
#[verifier::ext_equal]
pub struct StunAttributeV {
    pub attr_type: u16,
    pub length: u16,
    pub value: Seq<u8>,
}

impl View for StunAttribute {
    type V = StunAttributeV;

    open spec fn view(&self) -> StunAttributeV {
        StunAttributeV { attr_type: self.attr_type, length: self.length, value: self.value@ }
    }
}

impl DeepView for StunAttribute {
    type V = StunAttributeV;

    open spec fn deep_view(&self) -> StunAttributeV {
        self.view()
    }
}

impl Clone for StunAttribute {
    /// A clone mirrors the original attribute.
    fn clone(&self) -> (r: StunAttribute)
        ensures
            r@ == self@,
    {
        let r = StunAttribute {
            attr_type: self.attr_type,
            length: self.length,
            value: self.value.clone(),
        };
        proof {
            assert(r@ =~= self@);
        }
        r
    }
}

/// One message: the header fields and the attributes.
#[derive(Debug)]
pub struct StunMessage {
    pub message_type: u16,
    pub length: u16,
    pub magic_cookie: u32,
    pub transaction_id: [u8; 12],
    pub attributes: Vec<StunAttribute>,
}

/// The mathematical form of a message.
#[verifier::ext_equal]
pub struct StunMessageV {
    pub message_type: u16,
    pub length: u16,
    pub magic_cookie: u32,
    pub transaction_id: Seq<u8>,
    pub attributes: Seq<StunAttributeV>,
}

impl View for StunMessage {
    type V = StunMessageV;

    open spec fn view(&self) -> StunMessageV {
        StunMessageV {
            message_type: self.message_type,
            length: self.length,
            magic_cookie: self.magic_cookie,
            transaction_id: self.transaction_id@,
            attributes: self.attributes.deep_view(),
        }
    }
}

/// A 16-bit number as two big-endian bytes.
pub open spec fn be16(n: u16) -> Seq<u8> {
    seq![(n / 256) as u8, (n % 256) as u8]
}

/// A 32-bit number as four big-endian bytes.
pub open spec fn be32(n: u32) -> Seq<u8> {
    seq![
        (n / 16777216) as u8,
        ((n / 65536) % 256) as u8,
        ((n / 256) % 256) as u8,
        (n % 256) as u8,
    ]
}

/// How many zero bytes pad a value of this length to four bytes.
pub open spec fn pad_len(l: nat) -> nat {
    (((4 - (l % 4)) % 4) as nat)
}

/// A run of zero bytes.
pub open spec fn zero_bytes(n: nat) -> Seq<u8> {
    Seq::new(n, |i: int| 0u8)
}

/// One attribute on the wire: type, claimed length, value, padding.
pub open spec fn attr_bytes(a: StunAttributeV) -> Seq<u8> {
    be16(a.attr_type) + be16(a.length) + a.value + zero_bytes(pad_len(a.value.len()))
}

/// Attributes on the wire, first to last.
pub open spec fn attrs_bytes(attrs: Seq<StunAttributeV>) -> Seq<u8>
    decreases attrs.len(),
{
    if attrs.len() == 0 {
        Seq::empty()
    } else {
        attrs_bytes(attrs.drop_last()) + attr_bytes(attrs.last())
    }
}

/// The whole message on the wire: a twenty-byte header, then the
/// attributes.
pub open spec fn stun_encoded(m: StunMessageV) -> Seq<u8> {
    be16(m.message_type) + be16(m.length) + be32(m.magic_cookie) + m.transaction_id + attrs_bytes(
        m.attributes,
    )
}

/// The wire size of the attributes: four header bytes plus the padded
/// value, per attribute.
pub open spec fn attrs_wire_len(attrs: Seq<StunAttributeV>) -> nat
    decreases attrs.len(),
{
    if attrs.len() == 0 {
        0
    } else {
        attrs_wire_len(attrs.drop_last()) + 4 + attrs.last().value.len() + pad_len(
            attrs.last().value.len(),
        )
    }
}

/// Relies on rand::random: twelve uniformly random bytes.
#[verifier::external_body]
fn random_transaction_id() -> (r: [u8; 12]) {
    rand::random::<[u8; 12]>()
}

/// Appends a 16-bit number big-endian.
fn push_be16(out: &mut Vec<u8>, n: u16)
    ensures
        final (out)@ == old(out)@ + be16(n),
{
    out.push((n / 256) as u8);
    out.push((n % 256) as u8);
    proof {
        assert(final (out)@ =~= old(out)@ + be16(n));
    }
}

/// Appends a 32-bit number big-endian.
fn push_be32(out: &mut Vec<u8>, n: u32)
    ensures
        final (out)@ == old(out)@ + be32(n),
{
    out.push((n / 16777216) as u8);
    out.push(((n / 65536) % 256) as u8);
    out.push(((n / 256) % 256) as u8);
    out.push((n % 256) as u8);
    proof {
        assert(final (out)@ =~= old(out)@ + be32(n));
    }
}

impl StunMessage {
    /// A fresh binding request with a random transaction identifier.
    pub fn new_binding_request() -> (r: StunMessage)
        ensures
            r@.message_type == STUN_BINDING_REQUEST,
            r@.length == 0,
            r@.magic_cookie == STUN_MAGIC_COOKIE,
            r@.attributes.len() == 0,
    {
        let r = StunMessage {
            message_type: STUN_BINDING_REQUEST,
            length: 0,
            magic_cookie: STUN_MAGIC_COOKIE,
            transaction_id: random_transaction_id(),
            attributes: Vec::new(),
        };
        proof {
            assert(r@.attributes =~= Seq::<StunAttributeV>::empty());
        }
        r
    }

    /// A binding response echoing the request's transaction identifier.
    pub fn new_binding_response(transaction_id: [u8; 12]) -> (r: StunMessage)
        ensures
            r@.message_type == STUN_BINDING_RESPONSE,
            r@.length == 0,
            r@.magic_cookie == STUN_MAGIC_COOKIE,
            r@.transaction_id == transaction_id@,
            r@.attributes.len() == 0,
    {
        let r = StunMessage {
            message_type: STUN_BINDING_RESPONSE,
            length: 0,
            magic_cookie: STUN_MAGIC_COOKIE,
            transaction_id,
            attributes: Vec::new(),
        };
        proof {
            assert(r@.attributes =~= Seq::<StunAttributeV>::empty());
        }
        r
    }

    /// An error response carrying the given code and reason phrase.
    pub fn new_error_response(transaction_id: [u8; 12], error_code: u16, reason: &str) -> (r:
        StunMessage)
        requires
            reason.spec_bytes().len() + 11 <= 65535,
        ensures
            r@.message_type == STUN_BINDING_ERROR_RESPONSE,
            r@.magic_cookie == STUN_MAGIC_COOKIE,
            r@.transaction_id == transaction_id@,
            r@.attributes.len() == 1,
            r@.attributes[0].attr_type == STUN_ATTR_ERROR_CODE,
            r@.attributes[0].value == seq![0u8, 0u8, (error_code / 100) as u8, (error_code % 100) as u8]
                + reason.spec_bytes(),
            r@.attributes[0].length == r@.attributes[0].value.len(),
            r@.length == attrs_wire_len(r@.attributes),
    {
        let mut message = StunMessage {
            message_type: STUN_BINDING_ERROR_RESPONSE,
            length: 0,
            magic_cookie: STUN_MAGIC_COOKIE,
            transaction_id,
            attributes: Vec::new(),
        };
        proof {
            assert(message@.attributes =~= Seq::<StunAttributeV>::empty());
        }
        let mut error_value: Vec<u8> = Vec::new();
        error_value.push(0);
        error_value.push(0);
        proof {
            vstd::arithmetic::div_mod::lemma_div_nonincreasing(error_code as int, 100);
        }
        #[verifier::truncate]
        let class = (error_code / 100) as u8;
        let number = (error_code % 100) as u8;
        error_value.push(class);
        error_value.push(number);
        let reason_bytes = reason.as_bytes();
        let mut k: usize = 0;
        let rn = reason_bytes.len();
        while k < rn
            invariant
                rn == reason.spec_bytes().len(),
                0 <= k <= rn,
                reason_bytes@ == reason.spec_bytes(),
                error_value@ == seq![0u8, 0u8, (error_code / 100) as u8, (error_code % 100) as u8]
                    + reason.spec_bytes().take(k as int),
            decreases rn - k,
        {
            let b = reason_bytes[k];
            error_value.push(b);
            proof {
                assert(error_value@ =~= seq![
                    0u8,
                    0u8,
                    (error_code / 100) as u8,
                    (error_code % 100) as u8,
                ] + reason.spec_bytes().take(k + 1));
            }
            k = k + 1;
        }
        proof {
            assert(reason.spec_bytes().take(rn as int) =~= reason.spec_bytes());
        }
        let value_len = error_value.len() as u16;
        proof {
            let attr_v = StunAttributeV {
                attr_type: STUN_ATTR_ERROR_CODE,
                length: value_len,
                value: error_value@,
            };
            let attrs1 = message@.attributes.push(attr_v);
            assert(attrs1.drop_last() =~= Seq::<StunAttributeV>::empty());
            assert(attrs_wire_len(attrs1.drop_last()) == 0);
            assert(attrs1.last() == attr_v);
            assert(attrs_wire_len(attrs1) == 4 + error_value@.len() + pad_len(error_value@.len()));
            assert(pad_len(error_value@.len()) <= 3);
        }
        message.add_attribute(
            StunAttribute { attr_type: STUN_ATTR_ERROR_CODE, length: value_len, value: error_value },
        );
        message
    }

    /// Appends an attribute and refreshes the header length field.
    pub fn add_attribute(&mut self, attribute: StunAttribute)
        requires
            attrs_wire_len(old(self)@.attributes.push(attribute@)) <= 65535,
        ensures
            final (self)@.attributes == old(self)@.attributes.push(attribute@),
            final (self)@.message_type == old(self)@.message_type,
            final (self)@.magic_cookie == old(self)@.magic_cookie,
            final (self)@.transaction_id == old(self)@.transaction_id,
            final (self)@.length == attrs_wire_len(final (self)@.attributes),
    {
        self.attributes.push(attribute);
        proof {
            assert(self@.attributes =~= old(self)@.attributes.push(attribute@));
        }
        self.update_length();
    }

    /// Recomputes the header length field from the attributes.
    fn update_length(&mut self)
        requires
            attrs_wire_len(old(self)@.attributes) <= 65535,
        ensures
            final (self)@.attributes == old(self)@.attributes,
            final (self)@.message_type == old(self)@.message_type,
            final (self)@.magic_cookie == old(self)@.magic_cookie,
            final (self)@.transaction_id == old(self)@.transaction_id,
            final (self)@.length == attrs_wire_len(old(self)@.attributes),
    {
        let ghost attrs = self@.attributes;
        let mut length: usize = 0;
        let n = self.attributes.len();
        let mut i: usize = 0;
        proof {
            assert(attrs.take(0) =~= Seq::<StunAttributeV>::empty());
        }
        while i < n
            invariant
                n == self.attributes@.len(),
                attrs == self@.attributes,
                attrs.len() == n,
                forall|j: int| 0 <= j < n ==> #[trigger] attrs[j] == self.attributes@[j]@,
                0 <= i <= n,
                length == attrs_wire_len(attrs.take(i as int)),
                attrs_wire_len(attrs) <= 65535,
            decreases n - i,
        {
            let ghost pre = attrs.take(i as int);
            let ghost cur = attrs.take(i + 1);
            proof {
                assert(cur.drop_last() =~= pre);
                assert(cur.last() == attrs[i as int]);
                lemma_attrs_wire_len_prefix(attrs, i + 1);
            }
            let vlen = self.attributes[i].value.len();
            let padding = (4 - (vlen % 4)) % 4;
            length = length + 4 + vlen + padding;
            i = i + 1;
        }
        proof {
            assert(attrs.take(n as int) =~= attrs);
        }
        self.length = length as u16;
    }

    /// The message on the wire.
    pub fn to_bytes(&self) -> (r: Vec<u8>)
        ensures
            r@ == stun_encoded(self@),
    {
        let mut bytes: Vec<u8> = Vec::new();
        push_be16(&mut bytes, self.message_type);
        push_be16(&mut bytes, self.length);
        push_be32(&mut bytes, self.magic_cookie);
        let mut k: usize = 0;
        while k < 12
            invariant
                0 <= k <= 12,
                bytes@ == be16(self.message_type) + be16(self.length) + be32(self.magic_cookie)
                    + self.transaction_id@.take(k as int),
            decreases 12 - k,
        {
            let b = self.transaction_id[k];
            bytes.push(b);
            proof {
                assert(bytes@ =~= be16(self.message_type) + be16(self.length) + be32(
                    self.magic_cookie,
                ) + self.transaction_id@.take(k + 1));
            }
            k = k + 1;
        }
        proof {
            assert(self.transaction_id@.take(12) =~= self.transaction_id@);
        }
        let ghost header = be16(self.message_type) + be16(self.length) + be32(self.magic_cookie)
            + self.transaction_id@;
        let ghost attrs = self@.attributes;
        let n = self.attributes.len();
        let mut i: usize = 0;
        proof {
            assert(attrs.take(0) =~= Seq::<StunAttributeV>::empty());
            assert(attrs_bytes(attrs.take(0)) =~= Seq::<u8>::empty());
            assert(bytes@ =~= header + attrs_bytes(attrs.take(0)));
        }
        while i < n
            invariant
                n == self.attributes@.len(),
                attrs == self@.attributes,
                attrs.len() == n,
                forall|j: int| 0 <= j < n ==> #[trigger] attrs[j] == self.attributes@[j]@,
                0 <= i <= n,
                bytes@ == header + attrs_bytes(attrs.take(i as int)),
            decreases n - i,
        {
            let ghost pre = attrs.take(i as int);
            let ghost cur = attrs.take(i + 1);
            proof {
                assert(cur.drop_last() =~= pre);
                assert(cur.last() == attrs[i as int]);
            }
            let a = &self.attributes[i];
            push_be16(&mut bytes, a.attr_type);
            push_be16(&mut bytes, a.length);
            let vlen = a.value.len();
            let mut v: usize = 0;
            let ghost before_value = bytes@;
            while v < vlen
                invariant
                    vlen == a.value@.len(),
                    0 <= v <= vlen,
                    bytes@ == before_value + a.value@.take(v as int),
                decreases vlen - v,
            {
                let b = a.value[v];
                bytes.push(b);
                proof {
                    assert(bytes@ =~= before_value + a.value@.take(v + 1));
                }
                v = v + 1;
            }
            proof {
                assert(a.value@.take(vlen as int) =~= a.value@);
            }
            let padding = (4 - (vlen % 4)) % 4;
            let mut p: usize = 0;
            let ghost before_pad = bytes@;
            while p < padding
                invariant
                    0 <= p <= padding,
                    bytes@ == before_pad + zero_bytes(p as nat),
                decreases padding - p,
            {
                bytes.push(0);
                proof {
                    assert(bytes@ =~= before_pad + zero_bytes((p + 1) as nat));
                }
                p = p + 1;
            }
            proof {
                assert(padding as nat == pad_len(a.value@.len()));
                assert(bytes@ =~= header + attrs_bytes(cur));
            }
            i = i + 1;
        }
        proof {
            assert(attrs.take(n as int) =~= attrs);
            assert(bytes@ =~= stun_encoded(self@));
        }
        bytes
    }
}

/// A prefix of the attributes takes no more wire space than all of them.
proof fn lemma_attrs_wire_len_prefix(attrs: Seq<StunAttributeV>, i: int)
    requires
        0 <= i <= attrs.len(),
    ensures
        attrs_wire_len(attrs.take(i)) <= attrs_wire_len(attrs),
    decreases attrs.len() - i,
{
    if i == attrs.len() {
        assert(attrs.take(i) =~= attrs);
    } else {
        assert(attrs.take(i + 1).drop_last() =~= attrs.take(i));
        lemma_attrs_wire_len_prefix(attrs, i + 1);
    }
}

/// Whether a datagram looks like a session-traversal message: at least
/// a full header, with the magic cookie in place.
pub open spec fn spec_is_stun_packet(data: Seq<u8>) -> bool {
    &&& data.len() >= 20
    &&& data[4] as nat * 16777216 + data[5] as nat * 65536 + data[6] as nat * 256 + data[7] as nat
        == STUN_MAGIC_COOKIE as nat
}

/// Whether a datagram looks like a session-traversal message.
pub fn is_stun_packet(data: &[u8]) -> (r: bool)
    ensures
        r == spec_is_stun_packet(data@),
{
    if data.len() < 20 {
        return false;
    }
    let magic: u32 = (data[4] as u32) * 16777216 + (data[5] as u32) * 65536 + (data[6] as u32)
        * 256 + (data[7] as u32);
    magic == STUN_MAGIC_COOKIE
}

/// The transaction identifier of a framed message, if the frame is
/// long enough to hold one.
pub fn extract_transaction_id(data: &[u8]) -> (r: Option<[u8; 12]>)
    ensures
        match r {
            Some(t) => data@.len() >= 20 && t@ == data@.subrange(8, 20),
            None => data@.len() < 20,
        },
{
    if data.len() < 20 {
        return None;
    }
    let t: [u8; 12] = [
        data[8],
        data[9],
        data[10],
        data[11],
        data[12],
        data[13],
        data[14],
        data[15],
        data[16],
        data[17],
        data[18],
        data[19],
    ];
    proof {
        assert(t@ =~= data@.subrange(8, 20));
    }
    Some(t)
}

/// Why a datagram failed to parse as a message.
#[derive(Clone, Copy, Debug, PartialEq, Eq, Structural)]
pub enum StunParseError {
    /// Shorter than the twenty-byte header.
    TooShort,
    /// The magic cookie is not in place.
    BadMagicCookie,
}

/// The 16-bit number at an offset, big-endian.
pub open spec fn read_be16(data: Seq<u8>, off: int) -> u16 {
    ((data[off] as nat * 256 + data[off + 1] as nat) as u16)
}

/// The attributes framed from an offset on: parsing stops quietly at a
/// truncated attribute, as the original wire format tolerates trailers.
pub open spec fn parse_attrs(data: Seq<u8>, offset: int) -> Seq<StunAttributeV>
    decreases data.len() - offset,
{
    if offset < 0 || offset + 4 > data.len() {
        Seq::empty()
    } else {
        let attr_type = read_be16(data, offset);
        let attr_len = read_be16(data, offset + 2);
        if offset + 4 + attr_len > data.len() {
            Seq::empty()
        } else {
            let value = data.subrange(offset + 4, offset + 4 + attr_len);
            let next = offset + 4 + attr_len + pad_len(attr_len as nat);
            let rest = parse_attrs(
                data,
                if next > data.len() {
                    data.len() as int
                } else {
                    next
                },
            );
            seq![StunAttributeV { attr_type, length: attr_len, value }] + rest
        }
    }
}

/// The message a datagram frames: header fields, transaction
/// identifier and attributes, or why it is no message.
pub open spec fn stun_parse(data: Seq<u8>) -> Result<StunMessageV, StunParseError> {
    if data.len() < 20 {
        Err(StunParseError::TooShort)
    } else {
        let magic = data[4] as nat * 16777216 + data[5] as nat * 65536 + data[6] as nat * 256
            + data[7] as nat;
        if magic != STUN_MAGIC_COOKIE as nat {
            Err(StunParseError::BadMagicCookie)
        } else {
            Ok(
                StunMessageV {
                    message_type: read_be16(data, 0),
                    length: read_be16(data, 2),
                    magic_cookie: STUN_MAGIC_COOKIE,
                    transaction_id: data.subrange(8, 20),
                    attributes: parse_attrs(data, 20),
                },
            )
        }
    }
}

/// Reads the attributes framed from an offset on.
fn parse_attrs_exec(data: &[u8], offset: usize) -> (r: Vec<StunAttribute>)
    requires
        offset <= data@.len(),
        data@.len() <= 65536,
    ensures
        r.deep_view() == parse_attrs(data@, offset as int),
    decreases data@.len() - offset,
{
    let n = data.len();
    if n - offset < 4 {
        let r: Vec<StunAttribute> = Vec::new();
        proof {
            assert(r.deep_view() =~= parse_attrs(data@, offset as int));
        }
        return r;
    }
    let attr_type = (data[offset] as u16) * 256 + (data[offset + 1] as u16);
    let attr_len = (data[offset + 2] as u16) * 256 + (data[offset + 3] as u16);
    if (attr_len as usize) > n - offset - 4 {
        let r: Vec<StunAttribute> = Vec::new();
        proof {
            assert(r.deep_view() =~= parse_attrs(data@, offset as int));
        }
        return r;
    }
    let vstart = offset + 4;
    let vend = vstart + attr_len as usize;
    let mut value: Vec<u8> = Vec::new();
    let mut k = vstart;
    while k < vend
        invariant
            vstart <= k <= vend,
            vend <= data@.len(),
            value@ == data@.subrange(vstart as int, k as int),
        decreases vend - k,
    {
        let b = data[k];
        value.push(b);
        proof {
            assert(value@ =~= data@.subrange(vstart as int, k + 1));
        }
        k = k + 1;
    }
    let padding = (4 - (attr_len as usize % 4)) % 4;
    let next0 = vend + padding;
    let next = if next0 > n {
        n
    } else {
        next0
    };
    let mut rest = parse_attrs_exec(data, next);
    let length = attr_len;
    let mut out: Vec<StunAttribute> = Vec::new();
    out.push(StunAttribute { attr_type, length, value });
    out.append(&mut rest);
    proof {
        assert(out.deep_view() =~= parse_attrs(data@, offset as int));
    }
    out
}

impl StunMessage {
    /// Reads a message out of a datagram.
    pub fn from_bytes(data: &[u8]) -> (r: Result<StunMessage, StunParseError>)
        requires
            data@.len() <= 65536,
        ensures
            (match r {
                Ok(m) => stun_parse(data@) == Ok::<StunMessageV, StunParseError>(m@),
                Err(e) => stun_parse(data@) == Err::<StunMessageV, StunParseError>(e),
            }),
    {
        if data.len() < 20 {
            return Err(StunParseError::TooShort);
        }
        let magic: u32 = (data[4] as u32) * 16777216 + (data[5] as u32) * 65536 + (data[6] as u32)
            * 256 + (data[7] as u32);
        if magic != STUN_MAGIC_COOKIE {
            return Err(StunParseError::BadMagicCookie);
        }
        let message_type = (data[0] as u16) * 256 + (data[1] as u16);
        let length = (data[2] as u16) * 256 + (data[3] as u16);
        let transaction_id: [u8; 12] = [
            data[8],
            data[9],
            data[10],
            data[11],
            data[12],
            data[13],
            data[14],
            data[15],
            data[16],
            data[17],
            data[18],
            data[19],
        ];
        let attributes = parse_attrs_exec(data, 20);
        let m = StunMessage {
            message_type,
            length,
            magic_cookie: magic,
            transaction_id,
            attributes,
        };
        proof {
            assert(m@.transaction_id =~= data@.subrange(8, 20));
            assert(stun_parse(data@) == Ok::<StunMessageV, StunParseError>(m@)) by {
                assert(m@ =~= stun_parse(data@)->Ok_0);
            }
        }
        Ok(m)
    }

    /// The endpoint in the first mapped-address attribute, if any.
    pub fn extract_mapped_address(&self) -> (r: Option<Addr>)
        ensures
            r == first_mapped_address(self@.attributes),
    {
        let n = self.attributes.len();
        let mut i: usize = 0;
        let ghost attrs = self@.attributes;
        proof {
            assert(attrs.skip(0) =~= attrs);
        }
        while i < n
            invariant
                n == self.attributes@.len(),
                attrs == self@.attributes,
                attrs.len() == n,
                forall|j: int| 0 <= j < n ==> #[trigger] attrs[j] == self.attributes@[j]@,
                0 <= i <= n,
                first_mapped_address(attrs) == first_mapped_address(attrs.skip(i as int)),
            decreases n - i,
        {
            proof {
                assert(attrs.skip(i as int)[0] == attrs[i as int]);
                assert(attrs.skip(i as int).drop_first() =~= attrs.skip(i + 1));
            }
            let a = &self.attributes[i];
            if a.attr_type == STUN_ATTR_MAPPED_ADDRESS || a.attr_type
                == STUN_ATTR_XOR_MAPPED_ADDRESS {
                return parse_address_attribute(
                    &a.value,
                    a.attr_type == STUN_ATTR_XOR_MAPPED_ADDRESS,
                );
            }
            i = i + 1;
        }
        proof {
            assert(attrs.skip(n as int) =~= Seq::<StunAttributeV>::empty());
        }
        None
    }
}

/// The endpoint an address attribute's value denotes: family one, a
/// port and four octets, exclusive-or unmasked when requested.
pub open spec fn spec_parse_address_value(value: Seq<u8>, is_xor: bool) -> Option<Addr> {
    if value.len() < 8 {
        None
    } else if read_be16(value, 0) != 1 {
        None
    } else {
        let port0 = read_be16(value, 2);
        let m = be32(STUN_MAGIC_COOKIE);
        let port = if is_xor {
            port0 ^ ((STUN_MAGIC_COOKIE >> 16) as u16)
        } else {
            port0
        };
        let b4 = if is_xor {
            value[4] ^ m[0]
        } else {
            value[4]
        };
        let b5 = if is_xor {
            value[5] ^ m[1]
        } else {
            value[5]
        };
        let b6 = if is_xor {
            value[6] ^ m[2]
        } else {
            value[6]
        };
        let b7 = if is_xor {
            value[7] ^ m[3]
        } else {
            value[7]
        };
        Some(
            Addr {
                ip: ((b4 as nat * 16777216 + b5 as nat * 65536 + b6 as nat * 256 + b7 as nat)
                    as u32),
                port,
            },
        )
    }
}

/// The endpoint in the first mapped-address attribute, if any: the
/// first such attribute decides, even when its value is malformed.
pub open spec fn first_mapped_address(attrs: Seq<StunAttributeV>) -> Option<Addr>
    decreases attrs.len(),
{
    if attrs.len() == 0 {
        None
    } else if attrs[0].attr_type == STUN_ATTR_MAPPED_ADDRESS || attrs[0].attr_type
        == STUN_ATTR_XOR_MAPPED_ADDRESS {
        spec_parse_address_value(attrs[0].value, attrs[0].attr_type == STUN_ATTR_XOR_MAPPED_ADDRESS)
    } else {
        first_mapped_address(attrs.drop_first())
    }
}

/// Reads an endpoint out of an address attribute's value.
fn parse_address_attribute(value: &Vec<u8>, is_xor: bool) -> (r: Option<Addr>)
    ensures
        r == spec_parse_address_value(value@, is_xor),
{
    if value.len() < 8 {
        return None;
    }
    let family = (value[0] as u16) * 256 + (value[1] as u16);
    if family != 1 {
        return None;
    }
    let mut port = (value[2] as u16) * 256 + (value[3] as u16);
    let mut b4 = value[4];
    let mut b5 = value[5];
    let mut b6 = value[6];
    let mut b7 = value[7];
    if is_xor {
        port = port ^ ((STUN_MAGIC_COOKIE >> 16) as u16);
        b4 = b4 ^ 0x21;
        b5 = b5 ^ 0x12;
        b6 = b6 ^ 0xA4;
        b7 = b7 ^ 0x42;
    }
    proof {
        assert(be32(STUN_MAGIC_COOKIE) =~= seq![0x21u8, 0x12u8, 0xA4u8, 0x42u8]);
    }
    let ip = (b4 as u32) * 16777216 + (b5 as u32) * 65536 + (b6 as u32) * 256 + (b7 as u32);
    Some(Addr { ip, port })
}

/// Every attribute's claimed length is its value's length, which fits
/// the 16-bit wire field; encoders keep it so.
pub open spec fn wf_stun_attrs(attrs: Seq<StunAttributeV>) -> bool {
    forall|i: int|
        0 <= i < attrs.len() ==> (#[trigger] attrs[i]).length == attrs[i].value.len()
            && attrs[i].value.len() <= 65535
}

/// Attribute bytes distribute over concatenation.
proof fn lemma_attrs_bytes_add(a: Seq<StunAttributeV>, b: Seq<StunAttributeV>)
    ensures
        attrs_bytes(a + b) == attrs_bytes(a) + attrs_bytes(b),
        attrs_wire_len(a + b) == attrs_wire_len(a) + attrs_wire_len(b),
    decreases b.len(),
{
    if b.len() == 0 {
        assert(a + b =~= a);
        assert(attrs_bytes(a) + attrs_bytes(b) =~= attrs_bytes(a));
    } else {
        assert((a + b).drop_last() =~= a + b.drop_last());
        assert((a + b).last() == b.last());
        lemma_attrs_bytes_add(a, b.drop_last());
        assert(attrs_bytes(a) + attrs_bytes(b) =~= attrs_bytes(a) + attrs_bytes(b.drop_last())
            + attr_bytes(b.last()));
    }
}

/// The encoded attributes take exactly their wire length.
proof fn lemma_attrs_bytes_len(attrs: Seq<StunAttributeV>)
    ensures
        attrs_bytes(attrs).len() == attrs_wire_len(attrs),
    decreases attrs.len(),
{
    if attrs.len() > 0 {
        lemma_attrs_bytes_len(attrs.drop_last());
    }
}

/// Two big-endian bytes read back as the number they encode.
proof fn lemma_be16_round(n: u16)
    ensures
        (n / 256) as u8 as nat * 256 + (n % 256) as u8 as nat == n as nat,
{
}

/// Parsing inverts encoding, one attribute at a time.
proof fn lemma_parse_attrs_round(data: Seq<u8>, offset: int, attrs: Seq<StunAttributeV>)
    requires
        wf_stun_attrs(attrs),
        0 <= offset <= data.len(),
        offset + attrs_wire_len(attrs) == data.len(),
        data.subrange(offset, data.len() as int) == attrs_bytes(attrs),
    ensures
        parse_attrs(data, offset) == attrs,
    decreases attrs.len(),
{
    if attrs.len() == 0 {
        assert(parse_attrs(data, offset) =~= attrs);
    } else {
        let a = attrs[0];
        let rest = attrs.drop_first();
        assert(wf_stun_attrs(rest)) by {
            assert(forall|i: int|
                0 <= i < rest.len() ==> #[trigger] rest[i] == attrs[i + 1]);
        }
        assert(attrs =~= seq![a] + rest);
        lemma_attrs_bytes_add(seq![a], rest);
        let empty_attrs = Seq::<StunAttributeV>::empty();
        assert(seq![a].drop_last() =~= empty_attrs);
        assert(seq![a].last() == a);
        assert(attrs_bytes(empty_attrs) =~= Seq::<u8>::empty());
        assert(attrs_wire_len(empty_attrs) == 0);
        assert(attrs_bytes(seq![a]) =~= attrs_bytes(empty_attrs) + attr_bytes(a));
        assert(attrs_bytes(seq![a]) =~= attr_bytes(a));
        assert(attrs_wire_len(seq![a]) == 4 + a.value.len() + pad_len(a.value.len()));
        let ab = attr_bytes(a);
        let tail = data.subrange(offset, data.len() as int);
        assert(tail =~= ab + attrs_bytes(rest));
        lemma_attrs_bytes_len(rest);
        let wa = 4 + a.value.len() + pad_len(a.value.len());
        assert(ab.len() == wa) by {
            lemma_attrs_bytes_len(seq![a]);
        }
        assert forall|k: int| 0 <= k < ab.len() implies data[offset + k] == ab[k] by {
            assert(tail[k] == ab[k]);
        }
        lemma_be16_round(a.attr_type);
        lemma_be16_round(a.length);
        assert(ab[0] == (a.attr_type / 256) as u8);
        assert(ab[1] == (a.attr_type % 256) as u8);
        assert(ab[2] == (a.length / 256) as u8);
        assert(ab[3] == (a.length % 256) as u8);
        assert(data[offset + 0] == ab[0] && data[offset + 1] == ab[1] && data[offset + 2] == ab[2]
            && data[offset + 3] == ab[3]);
        assert(data[offset] == (a.attr_type / 256) as u8);
        assert(data[offset + 1] == (a.attr_type % 256) as u8);
        assert(data[offset + 2] == (a.length / 256) as u8);
        assert(data[offset + 3] == (a.length % 256) as u8);
        assert(read_be16(data, offset) == a.attr_type);
        assert(read_be16(data, offset + 2) == a.length);
        assert(offset + 4 <= data.len());
        assert(offset + 4 + a.length <= data.len());
        assert(data.subrange(offset + 4, offset + 4 + a.length as int) =~= a.value) by {
            assert(a.length == a.value.len());
            assert forall|k: int| 0 <= k < a.value.len() implies data[offset + 4 + k]
                == a.value[k] by {
                assert(ab[4 + k] == a.value[k]);
            }
        }
        let next = offset + 4 + a.length + pad_len(a.length as nat);
        assert(pad_len(a.length as nat) == pad_len(a.value.len()));
        assert(next == offset + wa);
        assert(next <= data.len());
        assert(data.subrange(next, data.len() as int) =~= attrs_bytes(rest)) by {
            assert forall|k: int| 0 <= k < data.len() - next implies data[next + k]
                == attrs_bytes(rest)[k] by {
                assert(tail[wa + k] == attrs_bytes(rest)[k]);
            }
        }
        lemma_parse_attrs_round(data, next, rest);
        let parsed = StunAttributeV {
            attr_type: read_be16(data, offset),
            length: read_be16(data, offset + 2),
            value: data.subrange(offset + 4, offset + 4 + a.length as int),
        };
        assert(parsed =~= a);
        assert(parse_attrs(data, offset) =~= seq![a] + rest);
    }
}

/// Reading a message's frame back gives the message: decoding inverts
/// encoding for every message with the magic cookie in place, a twelve-
/// byte transaction identifier and truthful attribute lengths.
pub proof fn lemma_stun_round_trip(m: StunMessageV)
    requires
        m.magic_cookie == STUN_MAGIC_COOKIE,
        m.transaction_id.len() == 12,
        wf_stun_attrs(m.attributes),
    ensures
        stun_parse(stun_encoded(m)) == Ok::<StunMessageV, StunParseError>(m),
{
    let data = stun_encoded(m);
    let header = be16(m.message_type) + be16(m.length) + be32(m.magic_cookie)
        + m.transaction_id;
    assert(header.len() == 20);
    lemma_attrs_bytes_len(m.attributes);
    assert(data.len() == 20 + attrs_wire_len(m.attributes));
    assert forall|k: int| 0 <= k < 20 implies data[k] == header[k] by {}
    lemma_be16_round(m.message_type);
    lemma_be16_round(m.length);
    assert(read_be16(data, 0) == m.message_type);
    assert(read_be16(data, 2) == m.length);
    assert(be32(STUN_MAGIC_COOKIE) =~= seq![0x21u8, 0x12u8, 0xA4u8, 0x42u8]);
    assert(data[4] == 0x21u8 && data[5] == 0x12u8 && data[6] == 0xA4u8 && data[7] == 0x42u8);
    assert(data[4] as nat * 16777216 + data[5] as nat * 65536 + data[6] as nat * 256
        + data[7] as nat == STUN_MAGIC_COOKIE as nat);
    assert(data.subrange(8, 20) =~= m.transaction_id);
    assert(data.subrange(20, data.len() as int) =~= attrs_bytes(m.attributes));
    lemma_parse_attrs_round(data, 20, m.attributes);
    assert(stun_parse(data)->Ok_0 =~= m);
}

/// The software attribute naming the responding implementation.
pub fn create_software_attribute(software: &str) -> (r: StunAttribute)
    requires
        software.spec_bytes().len() <= 65535,
    ensures
        r@.attr_type == STUN_ATTR_SOFTWARE,
        r@.value == software.spec_bytes(),
        r@.length == software.spec_bytes().len(),
{
    let bytes = software.as_bytes();
    let mut value: Vec<u8> = Vec::new();
    let n = bytes.len();
    let mut i: usize = 0;
    while i < n
        invariant
            n == software.spec_bytes().len(),
            bytes@ == software.spec_bytes(),
            0 <= i <= n,
            value@ == software.spec_bytes().take(i as int),
        decreases n - i,
    {
        let b = bytes[i];
        value.push(b);
        proof {
            assert(value@ =~= software.spec_bytes().take(i + 1));
        }
        i = i + 1;
    }
    proof {
        assert(software.spec_bytes().take(n as int) =~= software.spec_bytes());
    }
    let length = value.len() as u16;
    StunAttribute { attr_type: STUN_ATTR_SOFTWARE, length, value }
}

/// The address attribute's value bytes: family, port, then the four
/// address octets, each exclusive-or masked when requested.
pub open spec fn mapped_address_value(a: Addr, use_xor: bool) -> Seq<u8> {
    let port = if use_xor {
        a.port ^ ((STUN_MAGIC_COOKIE >> 16) as u16)
    } else {
        a.port
    };
    let m = be32(STUN_MAGIC_COOKIE);
    let o = seq![octet1(a.ip) as u8, octet2(a.ip) as u8, octet3(a.ip) as u8, octet4(a.ip) as u8];
    let bytes = if use_xor {
        seq![o[0] ^ m[0], o[1] ^ m[1], o[2] ^ m[2], o[3] ^ m[3]]
    } else {
        o
    };
    be16(1) + be16(port) + bytes
}

/// The mapped-address attribute for an endpoint, exclusive-or masked
/// when requested.
pub fn create_mapped_address_attribute(addr: Addr, use_xor: bool) -> (r: StunAttribute)
    ensures
        r@.attr_type == (if use_xor {
            STUN_ATTR_XOR_MAPPED_ADDRESS
        } else {
            STUN_ATTR_MAPPED_ADDRESS
        }),
        r@.value == mapped_address_value(addr, use_xor),
        r@.length == 8,
{
    let mut value: Vec<u8> = Vec::new();
    value.push(0);
    value.push(1);
    let port = if use_xor {
        addr.port ^ ((STUN_MAGIC_COOKIE >> 16) as u16)
    } else {
        addr.port
    };
    value.push((port / 256) as u8);
    value.push((port % 256) as u8);
    let o1 = (addr.ip / 16777216) as u8;
    let o2 = ((addr.ip / 65536) % 256) as u8;
    let o3 = ((addr.ip / 256) % 256) as u8;
    let o4 = (addr.ip % 256) as u8;
    proof {
        let n = addr.ip as nat;
        assert((n / 16777216) % 256 == n / 16777216) by (nonlinear_arith)
            requires
                n < 4294967296,
        ;
    }
    if use_xor {
        value.push(o1 ^ 0x21);
        value.push(o2 ^ 0x12);
        value.push(o3 ^ 0xA4);
        value.push(o4 ^ 0x42);
    } else {
        value.push(o1);
        value.push(o2);
        value.push(o3);
        value.push(o4);
    }
    proof {
        assert(be32(STUN_MAGIC_COOKIE) =~= seq![0x21u8, 0x12u8, 0xA4u8, 0x42u8]);
        assert(value@ =~= mapped_address_value(addr, use_xor));
    }
    let attr_type = if use_xor {
        STUN_ATTR_XOR_MAPPED_ADDRESS
    } else {
        STUN_ATTR_MAPPED_ADDRESS
    };
    StunAttribute { attr_type, length: 8, value }
}

} // verus!
