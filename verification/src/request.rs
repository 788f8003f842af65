//! Attributes to poll and the SNMP GET request that polls one of them.

use vstd::prelude::*;
use crate::oid::{get_oid_array, spec_oid_array};

verus! {

/// One attribute to poll: the polled-data id (also the request id), the
/// dotted OID, the agent address (`host:port`) and the community.
#[derive(Debug)]
pub struct Attribute {
    pub id: i32,
    pub oid: String,
    pub ip_addr: String,
    pub community: String,
}

impl Attribute {
    pub fn new(id: i32, oid: &str, ip_addr: &str, community: &str) -> (r: Attribute)
        ensures
            r.id == id,
            r.oid@ == oid@,
            r.ip_addr@ == ip_addr@,
            r.community@ == community@,
    {
        Attribute {
            id,
            oid: oid.to_owned(),
            ip_addr: ip_addr.to_owned(),
            community: community.to_owned(),
        }
    }
}

/// The bytes of the SNMPv2c GetRequest that `snmp::pdu::build_get` writes
/// for `community`, request id `req_id` and the sub-identifiers `name`.
pub uninterp spec fn snmp_get_request(community: Seq<u8>, req_id: i32, name: Seq<u32>) -> Seq<u8>;

/// Octets of a big-endian length value in the long form.
pub open spec fn long_length_octets(n: nat) -> nat
    decreases n,
{
    if n < 256 {
        1
    } else {
        1 + long_length_octets(n / 256)
    }
}

/// Octets of a BER length header for `n` content octets (short form below 128).
pub open spec fn length_header_size(n: nat) -> nat {
    if n < 128 {
        1
    } else {
        1 + long_length_octets(n)
    }
}

/// Octets of a tag-length-value element with `n` content octets.
pub open spec fn tlv_size(n: nat) -> nat {
    1 + length_header_size(n) + n
}

/// Content octets of a BER INTEGER holding `v` (minimal two's complement).
pub open spec fn int_octets(v: i32) -> nat {
    if -128 <= v < 128 {
        1
    } else if -32768 <= v < 32768 {
        2
    } else if -8388608 <= v < 8388608 {
        3
    } else {
        4
    }
}

/// Octets of one OID sub-identifier in base 128.
pub open spec fn subid_octets(s: u32) -> nat {
    if s < 0x80 {
        1
    } else if s < 0x4000 {
        2
    } else if s < 0x20_0000 {
        3
    } else if s < 0x1000_0000 {
        4
    } else {
        5
    }
}

/// Octets of the sub-identifiers `t` in base 128.
pub open spec fn subids_size(t: Seq<u32>) -> nat
    decreases t.len(),
{
    if t.len() == 0 {
        0
    } else {
        subids_size(t.drop_last()) + subid_octets(t.last())
    }
}

/// Content octets of the outer SEQUENCE of a GetRequest for a community of
/// `community_len` octets, request id `req_id` and sub-identifiers `name`:
/// version, community and a PDU holding the request id, error status and
/// index, and one binding of `name` to NULL.
pub open spec fn get_request_content_size(community_len: nat, req_id: i32, name: Seq<u32>) -> nat {
    let oid = 1 + subids_size(name.skip(2));
    let binding = tlv_size(oid) + 2;
    let bindings = tlv_size(binding);
    let pdu = tlv_size(bindings) + 3 + 3 + 2 + int_octets(req_id);
    tlv_size(pdu) + tlv_size(community_len) + 3
}

/// Largest content size of a GetRequest that `build_get` can write. Its buffer
/// holds 4096 octets, and each INTEGER it writes needs 8 free octets at the
/// time; the last one (the version) is written when all content but its own
/// 3 octets is in place.
pub const MAX_REQUEST_CONTENT: usize = 4091;

/// Whether `build_get` writes a GetRequest for `community`, `req_id` and
/// `name` without failing: the name has at least two sub-identifiers, the
/// first below 3 and the second below 40 (the encoder asserts both), and the
/// request fits the encoder's buffer.
pub open spec fn request_buildable(community: Seq<u8>, req_id: i32, name: Seq<u32>) -> bool {
    &&& name.len() >= 2
    &&& name[0] < 3
    &&& name[1] < 40
    &&& get_request_content_size(community.len(), req_id, name) <= MAX_REQUEST_CONTENT
}

proof fn lemma_subids_size_prefix(t: Seq<u32>, k: int)
    requires
        0 <= k <= t.len(),
    ensures
        subids_size(t.take(k)) <= subids_size(t),
    decreases t.len(),
{
    if k < t.len() {
        assert(t.drop_last().take(k) =~= t.take(k));
        lemma_subids_size_prefix(t.drop_last(), k);
    } else {
        assert(t.take(k) =~= t);
    }
}

proof fn lemma_subids_size_bound(t: Seq<u32>)
    ensures
        subids_size(t) <= 5 * t.len(),
    decreases t.len(),
{
    if t.len() > 0 {
        lemma_subids_size_bound(t.drop_last());
    }
}

proof fn lemma_tlv_size_bound(n: nat)
    requires
        n < 65536,
    ensures
        tlv_size(n) <= n + 4,
{
    reveal_with_fuel(long_length_octets, 3);
    if n >= 256 {
        assert(long_length_octets(n / 256) == 1);
    }
}

/// A name is refused only for its first two arcs or for the encoder's
/// capacity, never for its number of sub-identifiers as such: every name
/// whose first arc is below 3 and second below 40 has a GetRequest, for any
/// request id, as long as its encoded sub-identifiers and the community
/// together take at most 4053 octets.
pub proof fn lemma_buildable_within_capacity(community: Seq<u8>, req_id: i32, name: Seq<u32>)
    requires
        name.len() >= 2,
        name[0] < 3,
        name[1] < 40,
        subids_size(name.skip(2)) + community.len() <= 4053,
    ensures
        request_buildable(community, req_id, name),
{
    let t = name.skip(2);
    let oid = 1 + subids_size(t);
    lemma_tlv_size_bound(oid);
    let binding = tlv_size(oid) + 2;
    lemma_tlv_size_bound(binding);
    let bindings = tlv_size(binding);
    lemma_tlv_size_bound(bindings);
    let pdu = tlv_size(bindings) + 3 + 3 + 2 + int_octets(req_id);
    lemma_tlv_size_bound(pdu);
    lemma_tlv_size_bound(community.len());
}

/// In particular, every name of at most 400 sub-identifiers whose first arc is below 3 and second
/// below 40 has a GetRequest, for any request id and any community of at
/// most 1000 octets.
pub proof fn lemma_long_names_buildable(community: Seq<u8>, req_id: i32, name: Seq<u32>)
    requires
        2 <= name.len() <= 400,
        name[0] < 3,
        name[1] < 40,
        community.len() <= 1000,
    ensures
        request_buildable(community, req_id, name),
{
    lemma_subids_size_bound(name.skip(2));
    lemma_buildable_within_capacity(community, req_id, name);
}

fn subid_octets_exec(s: u32) -> (r: u64)
    ensures
        r == subid_octets(s),
{
    if s < 0x80 {
        1
    } else if s < 0x4000 {
        2
    } else if s < 0x20_0000 {
        3
    } else if s < 0x1000_0000 {
        4
    } else {
        5
    }
}

fn tlv_size_exec(n: u64) -> (r: u64)
    requires
        n < 65536,
    ensures
        r == tlv_size(n as nat),
        n + 2 <= r <= n + 4,
{
    proof {
        reveal_with_fuel(long_length_octets, 3);
    }
    if n < 128 {
        n + 2
    } else if n < 256 {
        n + 3
    } else {
        assert(long_length_octets((n / 256) as nat) == 1);
        n + 4
    }
}

fn int_octets_exec(v: i32) -> (r: u64)
    ensures
        r == int_octets(v),
{
    if -128 <= v && v < 128 {
        1
    } else if -32768 <= v && v < 32768 {
        2
    } else if -8388608 <= v && v < 8388608 {
        3
    } else {
        4
    }
}

/// Whether a GetRequest for these arguments is within the encoder's capacity.
fn request_fits(community_len: usize, req_id: i32, name: &[u32]) -> (r: bool)
    requires
        name@.len() >= 2,
    ensures
        r == (get_request_content_size(community_len as nat, req_id, name@) <= MAX_REQUEST_CONTENT),
{
    let ghost tail = name@.skip(2);
    if community_len > 4091 {
        assert(tlv_size(community_len as nat) > community_len);
        return false;
    }
    let mut subs: u64 = 0;
    let mut i: usize = 2;
    while i < name.len()
        invariant
            2 <= i <= name@.len(),
            tail == name@.skip(2),
            subs == subids_size(tail.take(i - 2)),
            subs <= 4091,
        decreases name@.len() - i,
    {
        let ghost k = i - 2;
        assert(tail.take(k + 1).drop_last() =~= tail.take(k));
        assert(tail.take(k + 1).last() == name@[i as int]);
        subs = subs + subid_octets_exec(name[i]);
        if subs > 4091 {
            proof {
                lemma_subids_size_prefix(tail, k + 1);
                assert(subids_size(tail) >= subs);
                assert(tlv_size(1 + subids_size(tail)) > subids_size(tail));
            }
            return false;
        }
        i = i + 1;
    }
    assert(tail.take(i - 2) =~= tail);
    let oid = tlv_size_exec(1 + subs);
    let binding = tlv_size_exec(oid + 2);
    let bindings = tlv_size_exec(binding);
    let pdu = tlv_size_exec(bindings + 8 + int_octets_exec(req_id));
    let total = pdu + tlv_size_exec(community_len as u64) + 3;
    total <= 4091
}

/// `snmp::pdu::build_get` followed by copying the encoded bytes out of the
/// encoder's buffer. The result is named `snmp_get_request`, a function of the
/// three arguments alone. `build_get` asserts on names shorter than two
/// sub-identifiers or with a first arc of 3 or more or a second of 40 or more,
/// and fails on requests beyond its fixed buffer; `requires` leaves exactly
/// those inputs out.
#[verifier::external_body]
fn build_get_request(community: &[u8], req_id: i32, name: &[u32]) -> (r: Vec<u8>)
    requires
        request_buildable(community@, req_id, name@),
    ensures
        r@ == snmp_get_request(community@, req_id, name@),
{
    let mut buf = snmp::pdu::Buf::default();
    snmp::pdu::build_get(community, req_id, name, &mut buf);
    buf[..].to_vec()
}

/// The sub-identifiers of an attribute's OID.
pub open spec fn attribute_name(attr: &Attribute) -> Seq<u32> {
    spec_oid_array(attr.oid@)
}

/// The community bytes of an attribute (its UTF-8 encoding).
pub open spec fn attribute_community(attr: &Attribute) -> Seq<u8> {
    vstd::utf8::encode_utf8(attr.community@)
}

/// The GetRequest that polls `attr`: request id `attr.id`, the attribute's
/// community and the sub-identifiers of its OID. `None` exactly when no
/// request can be built for them within the encoder's capacity.
pub fn encode_get_request(attr: &Attribute) -> (r: Option<Vec<u8>>)
    ensures
        r is None <==> !request_buildable(attribute_community(attr), attr.id, attribute_name(attr)),
        r matches Some(bytes) ==> bytes@ == snmp_get_request(
            attribute_community(attr),
            attr.id,
            attribute_name(attr),
        ),
{
    let name = get_oid_array(attr.oid.as_str());
    let community = attr.community.as_str().as_bytes();
    if name.len() < 2 || name[0] >= 3 || name[1] >= 40 {
        return None;
    }
    if !request_fits(community.len(), attr.id, name.as_slice()) {
        return None;
    }
    Some(build_get_request(community, attr.id, name.as_slice()))
}

} // verus!
