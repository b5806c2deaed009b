use vstd::prelude::*;
use ic_scalable_misc::models::identifier_model::Identifier;

verus! {

/// Largest number of bytes a principal may hold.
pub const MAX_PRINCIPAL_BYTES: usize = 29;

/// An opaque identity handle: a user, a canister or an encoded entity identifier.
#[derive(Debug, Clone)]
pub struct Principal {
    pub bytes: Vec<u8>,
}

impl View for Principal {
    type V = Seq<u8>;

    open spec fn view(&self) -> Seq<u8> {
        self.bytes@
    }
}

impl PartialEq for Principal {
    fn eq(&self, o: &Principal) -> (r: bool) {
        self.same(o)
    }
}

impl vstd::std_specs::cmp::PartialEqSpecImpl for Principal {
    open spec fn obeys_eq_spec() -> bool {
        true
    }

    open spec fn eq_spec(&self, o: &Principal) -> bool {
        self.bytes@ == o.bytes@
    }
}

impl Eq for Principal {}

impl Principal {
    pub fn from_bytes(bytes: Vec<u8>) -> (r: Principal)
        ensures
            r@ == bytes@,
    {
        Principal { bytes }
    }

    /// A copy with the same bytes.
    pub fn duplicate(&self) -> (r: Principal)
        ensures
            r@ == self@,
    {
        Principal { bytes: self.bytes.clone() }
    }

    /// The anonymous principal (the single byte 4).
    pub fn anonymous() -> (r: Principal)
        ensures
            r@ == seq![4u8],
    {
        Principal { bytes: vec![4u8] }
    }

    pub fn same(&self, o: &Principal) -> (r: bool)
        ensures
            r == (self@ == o@),
    {
        let r = self.bytes == o.bytes;
        proof {
            assert(r == (self.bytes@ =~= o.bytes@));
        }
        r
    }
}

/// Bytes that open every encoded entity identifier: a length byte and "cat".
pub open spec fn identifier_marker() -> Seq<u8> {
    seq![10u8, 99u8, 97u8, 116u8]
}

/// The principal carries an encoded entity identifier.
pub open spec fn is_encoded(p: Seq<u8>) -> bool {
    p.len() >= 4 && p.subrange(0, 4) == identifier_marker()
}

pub open spec fn is_ascii_bytes(b: Seq<u8>) -> bool {
    forall|i: int| 0 <= i < b.len() ==> b[i] < 128
}

/// The low 32 bits of a sequence number, most significant byte first.
pub open spec fn be32(n: u64) -> Seq<u8> {
    seq![(n >> 24u64) as u8, (n >> 16u64) as u8, (n >> 8u64) as u8, n as u8]
}

/// The number that four bytes spell, most significant first.
pub open spec fn be32_value(b: Seq<u8>) -> u64 {
    (b[0] as u64) << 24u64 | (b[1] as u64) << 16u64 | (b[2] as u64) << 8u64 | (b[3] as u64)
}

/// The encoding of (sequence, shard, kind): marker, kind, shard bytes, sequence.
pub open spec fn encode_spec(id: u64, shard: Seq<u8>, kind: Seq<u8>) -> Seq<u8> {
    identifier_marker() + kind + shard + be32(id)
}

/// A principal can be decoded without failing: it holds at least the marker's
/// four bytes, and where it carries the marker, a kind and a sequence too.
pub open spec fn decodable(p: Seq<u8>) -> bool {
    &&& 4 <= p.len() <= MAX_PRINCIPAL_BYTES
    &&& is_encoded(p) ==> p.len() >= 11 && is_ascii_bytes(p.subrange(4, 7))
}

/// The kind that a plain principal decodes to: the bytes of "principal".
pub open spec fn principal_kind() -> Seq<u8> {
    seq![112u8, 114u8, 105u8, 110u8, 99u8, 105u8, 112u8, 97u8, 108u8]
}

/// What decoding yields: (sequence, shard bytes, kind).
pub open spec fn decode_spec(p: Seq<u8>) -> (u64, Seq<u8>, Seq<u8>) {
    if is_encoded(p) {
        (
            be32_value(p.subrange(p.len() - 4, p.len() as int)),
            p.subrange(7, p.len() - 4),
            p.subrange(4, 7),
        )
    } else {
        (0, p, principal_kind())
    }
}

/// Relies on ic_scalable_misc's Identifier::new and Identifier::encode: a
/// three-byte kind is accepted, and the result is the marker, the kind, the shard
/// and the low 32 bits of the sequence, big endian.
#[verifier::external_body]
fn encode_identifier(id: u64, shard: &Principal, kind: &Vec<u8>) -> (r: Principal)
    requires
        kind@.len() == 3,
        is_ascii_bytes(kind@),
        shard@.len() <= 18,
    ensures
        r@ == encode_spec(id, shard@, kind@),
{
    let shard = candid::Principal::from_slice(&shard.bytes);
    let kind = String::from_utf8(kind.clone()).unwrap();
    let encoded = Identifier::new(id, shard, kind).unwrap().encode().unwrap();
    Principal { bytes: encoded.as_slice().to_vec() }
}

/// Relies on ic_scalable_misc's Identifier::decode: an identifier that starts
/// with the marker splits into kind, shard and sequence; any other principal
/// decodes to sequence 0, itself, and the kind "principal".
#[verifier::external_body]
fn decode_identifier(p: &Principal) -> (r: (u64, Principal, Vec<u8>))
    requires
        decodable(p@),
    ensures
        r.0 == decode_spec(p@).0,
        r.1@ == decode_spec(p@).1,
        r.2@ == decode_spec(p@).2,
{
    let (id, shard, kind) = Identifier::decode(&candid::Principal::from_slice(&p.bytes));
    (id, Principal { bytes: shard.as_slice().to_vec() }, kind.into_bytes())
}

/// Whether the principal can be decoded without failing.
pub fn is_decodable(p: &Principal) -> (r: bool)
    ensures
        r == decodable(p@),
{
    let n = p.bytes.len();
    if n > MAX_PRINCIPAL_BYTES || n < 4 {
        return false;
    }
    if p.bytes[0] != 10u8 || p.bytes[1] != 99u8 || p.bytes[2] != 97u8 || p.bytes[3] != 116u8 {
        proof {
            if is_encoded(p@) {
                assert(p@.subrange(0, 4)[0] == p@[0]);
                assert(p@.subrange(0, 4)[1] == p@[1]);
                assert(p@.subrange(0, 4)[2] == p@[2]);
                assert(p@.subrange(0, 4)[3] == p@[3]);
            }
        }
        return true;
    }
    assert(p@.subrange(0, 4) =~= identifier_marker());
    if n < 11 {
        return false;
    }
    let r = p.bytes[4] < 128 && p.bytes[5] < 128 && p.bytes[6] < 128;
    proof {
        let k = p@.subrange(4, 7);
        if r {
            assert forall|i: int| 0 <= i < k.len() implies k[i] < 128 by {
                assert(k[i] == p@[4 + i]);
            }
        } else {
            assert(k[0] == p@[4] && k[1] == p@[5] && k[2] == p@[6]);
        }
    }
    r
}

/// Splits an identifier into (sequence, shard, kind), or `None` where the
/// principal is shorter than four bytes, too long, or its marker is not
/// followed by an ASCII kind and a sequence.
pub fn decode(p: &Principal) -> (r: Option<(u64, Principal, Vec<u8>)>)
    ensures
        r is None <==> !decodable(p@),
        r matches Some(t) ==> t.0 == decode_spec(p@).0 && t.1@ == decode_spec(p@).1 && t.2@
            == decode_spec(p@).2,
{
    if is_decodable(p) {
        Some(decode_identifier(p))
    } else {
        None
    }
}

/// Builds the identifier of the `id`-th entity of `kind` on a shard.
pub fn encode(kind: &Vec<u8>, shard: &Principal, id: u64) -> (r: Principal)
    requires
        kind@.len() == 3,
        is_ascii_bytes(kind@),
        shard@.len() <= 18,
    ensures
        r@ == encode_spec(id, shard@, kind@),
        r@.len() == 11 + shard@.len(),
{
    encode_identifier(id, shard, kind)
}

/// Decoding an encoded identifier gives back its kind, its shard and the low 32
/// bits of its sequence.
pub proof fn lemma_identifier_round_trip(id: u64, shard: Seq<u8>, kind: Seq<u8>)
    requires
        kind.len() == 3,
        is_ascii_bytes(kind),
        shard.len() <= 18,
    ensures
        decodable(encode_spec(id, shard, kind)),
        decode_spec(encode_spec(id, shard, kind)) == (id % 0x1_0000_0000u64, shard, kind),
{
    let e = encode_spec(id, shard, kind);
    let n = e.len();
    assert(e.subrange(0, 4) =~= identifier_marker());
    assert(e.subrange(4, 7) =~= kind);
    assert(e.subrange(7, n - 4) =~= shard);
    assert(e.subrange(n - 4, n as int) =~= be32(id));
    let b = be32(id);
    assert(be32_value(b) == id % 0x1_0000_0000u64) by {
        assert(((((id >> 24u64) as u8) as u64) << 24u64 | (((id >> 16u64) as u8) as u64) << 16u64
            | (((id >> 8u64) as u8) as u64) << 8u64 | ((id as u8) as u64)) == id % 0x1_0000_0000u64)
            by (bit_vector);
    }
}

} // verus!
