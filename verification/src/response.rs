//! Reading a response datagram: the value pair that the receiver stores for
//! the raw bytes of an SNMP response, decoded by the `snmp` crate.
//!
//! The decoder reads BER elements along the message and the first variable
//! binding. A long-form length header announcing more length octets than a
//! `usize` holds, or more than the input still holds, makes it panic, and so
//! does an INTEGER-like element (INTEGER, Counter32, Unsigned32, TimeTicks,
//! Counter64) with no content octets, whose sign extension shifts a 64-bit
//! value by 64 (this panics where overflow checks are on, the default outside
//! release builds; a release build reads such an element as 0).
//! `ber_lengths_ok` says that no element it reads is of either kind, and is
//! checked before decoding.

use vstd::prelude::*;
use crate::reading::{numeric_value_of, reading_for_response, vtype_of, SnmpValue, ValuePair};

verus! {

/// The outcome of reading one BER element from `s[pos..end]` the way the
/// decoder's readers do: it panics, fails (leaving its cursor at `at`), or
/// reads an element whose content is `s[body..end]`.
pub enum TlvRead {
    Panic,
    Fail { at: int },
    Read { ident: u8, body: int, end: int },
}

/// `256^n`.
pub open spec fn pow256(n: nat) -> nat
    decreases n,
{
    if n == 0 { 1 } else { pow256((n - 1) as nat) * 256 }
}

/// The big-endian value of the `n` octets `s[from..from + n]`.
pub open spec fn be_value(s: Seq<u8>, from: int, n: nat) -> nat
    decreases n,
{
    if n == 0 { 0 } else { be_value(s, from, (n - 1) as nat) * 256 + s[from + n - 1] as nat }
}

/// Reading one element from `s[pos..end]`, whose identifier must be
/// `expected` when that is given: the identifier octet, then the length header
/// (short form below 0x80; 0x80 and 0xff are refused; otherwise the low seven
/// bits count the length octets that follow, at most as many as a `usize`
/// holds), then the content, which must fit.
pub open spec fn read_tlv(s: Seq<u8>, pos: int, end: int, expected: Option<u8>) -> TlvRead {
    if pos >= end {
        TlvRead::Fail { at: pos }
    } else if expected is Some && s[pos] != expected->0 {
        TlvRead::Fail { at: pos + 1 }
    } else if pos + 1 >= end {
        TlvRead::Fail { at: pos + 1 }
    } else {
        let h = s[pos + 1];
        if h < 0x80 {
            let body = pos + 2;
            if h as int > end - body {
                TlvRead::Fail { at: body }
            } else {
                TlvRead::Read { ident: s[pos], body, end: body + h }
            }
        } else if h == 0x80 || h == 0xff {
            TlvRead::Fail { at: pos + 1 }
        } else {
            let count = (h - 0x80) as nat;
            if count > usize::BITS / 8 || end - (pos + 2) < count {
                TlvRead::Panic
            } else {
                let body = pos + 2 + count;
                let len = be_value(s, pos + 2, count);
                if len > end - body {
                    TlvRead::Fail { at: body }
                } else {
                    TlvRead::Read { ident: s[pos], body, end: body + len }
                }
            }
        }
    }
}

pub open spec fn is_panic(r: TlvRead) -> bool {
    r matches TlvRead::Panic
}

/// Reading an INTEGER-like element: as `read_tlv`, and an element with no
/// content octets makes the decoder's integer reader panic.
pub open spec fn read_int(s: Seq<u8>, pos: int, end: int, expected: Option<u8>) -> TlvRead {
    match read_tlv(s, pos, end, expected) {
        TlvRead::Read { body, end: e, .. } => if body == e {
            TlvRead::Panic
        } else {
            read_tlv(s, pos, end, expected)
        },
        r => r,
    }
}

/// Whether a binding value with identifier `id` is read as an integer
/// (INTEGER, Counter32, Unsigned32, TimeTicks, Counter64).
pub open spec fn value_is_int(id: u8) -> bool {
    id == 0x02 || id == 0x41 || id == 0x42 || id == 0x43 || id == 0x46
}

/// Whether the decoder reads a length header for a binding value whose
/// identifier is `id` (BOOLEAN and unsupported primitive types are refused
/// before that).
pub open spec fn value_reads_length(id: u8) -> bool {
    ||| id == 0x02 || id == 0x04 || id == 0x05 || id == 0x06
    ||| 0x40 <= id <= 0x44 || id == 0x46
    ||| id & 0x20u8 == 0x20u8
}

/// The value of a binding, read from `s[p..e]`, has a sound length header.
pub open spec fn value_ok(s: Seq<u8>, p: int, e: int) -> bool {
    ||| p >= e
    ||| !value_reads_length(s[p])
    ||| value_is_int(s[p]) && !is_panic(read_int(s, p, e, Some(s[p])))
    ||| !value_is_int(s[p]) && !is_panic(read_tlv(s, p, e, Some(s[p])))
}

/// The first binding of the list in `s[b..e]` has sound length headers: the
/// binding SEQUENCE, its OID and then its value (which is read even when the
/// OID is not, from where the OID reader stopped).
pub open spec fn first_binding_ok(s: Seq<u8>, b: int, e: int) -> bool {
    match read_tlv(s, b, e, Some(0x30u8)) {
        TlvRead::Panic => false,
        TlvRead::Fail { .. } => true,
        TlvRead::Read { body: pb, end: pe, .. } => match read_tlv(s, pb, pe, Some(0x06u8)) {
            TlvRead::Panic => false,
            TlvRead::Fail { at } => value_ok(s, at, pe),
            TlvRead::Read { end: oe, .. } => value_ok(s, oe, pe),
        },
    }
}

/// The PDU content `s[b..e]` has sound length headers: request id, error
/// status, error index, the binding list, and its first binding.
pub open spec fn pdu_ok(s: Seq<u8>, b: int, e: int) -> bool {
    match read_int(s, b, e, Some(0x02u8)) {
        TlvRead::Panic => false,
        TlvRead::Fail { .. } => true,
        TlvRead::Read { end: p1, .. } => match read_int(s, p1, e, Some(0x02u8)) {
            TlvRead::Panic => false,
            TlvRead::Fail { .. } => true,
            TlvRead::Read { end: p2, .. } => match read_int(s, p2, e, Some(0x02u8)) {
                TlvRead::Panic => false,
                TlvRead::Fail { .. } => true,
                TlvRead::Read { end: p3, .. } => match read_tlv(s, p3, e, Some(0x30u8)) {
                    TlvRead::Panic => false,
                    TlvRead::Fail { .. } => true,
                    TlvRead::Read { body: lb, end: le, .. } => first_binding_ok(s, lb, le),
                },
            },
        },
    }
}

/// The message content `s[b..e]` has sound length headers: version,
/// community, and the PDU.
pub open spec fn message_ok(s: Seq<u8>, b: int, e: int) -> bool {
    match read_int(s, b, e, Some(0x02u8)) {
        TlvRead::Panic => false,
        TlvRead::Fail { .. } => true,
        TlvRead::Read { end: v, .. } => match read_tlv(s, v, e, Some(0x04u8)) {
            TlvRead::Panic => false,
            TlvRead::Fail { .. } => true,
            TlvRead::Read { end: c, .. } => c >= e || match read_tlv(s, c, e, None) {
                TlvRead::Panic => false,
                TlvRead::Fail { .. } => true,
                TlvRead::Read { body: pb, end: pe, .. } => pdu_ok(s, pb, pe),
            },
        },
    }
}

/// No element that the decoder reads along the message and its first
/// binding makes it panic: no unsound length header, no empty INTEGER-like
/// element. The decoder's checks on values (version, message
/// type, ranges) are not followed: where one of them stops the decoder with an
/// error, the headers further on are still asked to be sound.
pub open spec fn ber_lengths_ok(s: Seq<u8>) -> bool {
    match read_tlv(s, 0, s.len() as int, Some(0x30u8)) {
        TlvRead::Panic => false,
        TlvRead::Fail { .. } => true,
        TlvRead::Read { body, end, .. } => message_ok(s, body, end),
    }
}

/// A BER element with identifier `tag` and content `content`, its length in
/// the short form (meant for contents of fewer than 128 octets).
pub open spec fn ber_element(tag: u8, content: Seq<u8>) -> Seq<u8> {
    seq![tag, content.len() as u8] + content
}

/// `x` stands in `s` from position `p` on.
pub open spec fn stands_at(s: Seq<u8>, p: int, x: Seq<u8>) -> bool {
    &&& 0 <= p
    &&& p + x.len() <= s.len()
    &&& s.subrange(p, p + x.len()) == x
}

proof fn lemma_stands_split(s: Seq<u8>, p: int, x: Seq<u8>, y: Seq<u8>)
    requires
        stands_at(s, p, x + y),
    ensures
        stands_at(s, p, x),
        stands_at(s, p + x.len(), y),
{
    assert(s.subrange(p, p + x.len()) =~= (x + y).subrange(0, x.len() as int));
    assert(s.subrange(p + x.len(), p + x.len() + y.len()) =~= (x + y).subrange(
        x.len() as int,
        (x.len() + y.len()) as int,
    ));
    assert((x + y).subrange(0, x.len() as int) =~= x);
    assert((x + y).subrange(x.len() as int, (x.len() + y.len()) as int) =~= y);
}

proof fn lemma_stands_content(s: Seq<u8>, p: int, tag: u8, content: Seq<u8>)
    requires
        stands_at(s, p, ber_element(tag, content)),
    ensures
        stands_at(s, p + 2, content),
        s[p] == tag,
        s[p + 1] == content.len() as u8,
{
    lemma_stands_split(s, p, seq![tag, content.len() as u8], content);
    assert(s[p] == s.subrange(p, p + 2)[0]);
    assert(s[p + 1] == s.subrange(p, p + 2)[1]);
}

/// A well-formed element with a short-form length is read whole: its
/// identifier, and its content as the body, whatever that content is; an
/// INTEGER-like one is read the same way as soon as it has a content octet.
pub proof fn lemma_short_element_read(s: Seq<u8>, p: int, end: int, tag: u8, content: Seq<u8>)
    requires
        stands_at(s, p, ber_element(tag, content)),
        content.len() < 128,
        p + 2 + content.len() <= end,
    ensures
        read_tlv(s, p, end, Some(tag)) == (TlvRead::Read { ident: tag, body: p + 2, end: p + 2 + content.len() }),
        read_tlv(s, p, end, None) == (TlvRead::Read { ident: tag, body: p + 2, end: p + 2 + content.len() }),
        content.len() > 0 ==> read_int(s, p, end, Some(tag)) == (TlvRead::Read {
            ident: tag,
            body: p + 2,
            end: p + 2 + content.len(),
        }),
{
    lemma_stands_content(s, p, tag, content);
}

/// A well-formed element with a long-form length of one to four octets that
/// fits the input is read whole: its body starts after the length octets and
/// holds as many octets as they say; an INTEGER-like one is read the same way
/// as soon as it has a content octet.
pub proof fn lemma_long_element_read(s: Seq<u8>, p: int, end: int, count: nat)
    requires
        0 <= p,
        end <= s.len(),
        1 <= count <= 4,
        s[p + 1] == 0x80 + count,
        p + 2 + count + be_value(s, p + 2, count) <= end,
    ensures
        read_tlv(s, p, end, Some(s[p])) == (TlvRead::Read {
            ident: s[p],
            body: p + 2 + count,
            end: p + 2 + count + be_value(s, p + 2, count),
        }),
        be_value(s, p + 2, count) > 0 ==> read_int(s, p, end, Some(s[p])) == (TlvRead::Read {
            ident: s[p],
            body: p + 2 + count,
            end: p + 2 + count + be_value(s, p + 2, count),
        }),
{
    assert(usize::BITS / 8 >= 4) by {
        assert(usize::BITS == 32 || usize::BITS == 64);
    }
}

/// A GetResponse message with short-form lengths: version, community, and a
/// PDU of request id, error status and index, and a binding list whose first
/// binding binds the OID content `name` to a value with identifier
/// `value_tag` and content `value`, followed by the further bindings `more`.
pub open spec fn get_response_bytes(
    version: Seq<u8>,
    community: Seq<u8>,
    req_id: Seq<u8>,
    error_status: Seq<u8>,
    error_index: Seq<u8>,
    name: Seq<u8>,
    value_tag: u8,
    value: Seq<u8>,
    more: Seq<u8>,
) -> Seq<u8> {
    let binding = ber_element(0x30, ber_element(0x06, name) + ber_element(value_tag, value));
    let pdu = ber_element(0x02, req_id) + ber_element(0x02, error_status) + ber_element(
        0x02,
        error_index,
    ) + ber_element(0x30, binding + more);
    ber_element(
        0x30,
        ber_element(0x02, version) + ber_element(0x04, community) + ber_element(0xa2, pdu),
    )
}

proof fn lemma_first_binding_accepted(
    s: Seq<u8>,
    lb: int,
    name: Seq<u8>,
    value_tag: u8,
    value: Seq<u8>,
    more: Seq<u8>,
)
    requires
        stands_at(s, lb, ber_element(0x30, ber_element(0x06, name) + ber_element(value_tag, value)) + more),
        name.len() + value.len() + 4 < 128,
        value_is_int(value_tag) ==> value.len() > 0,
    ensures
        first_binding_ok(
            s,
            lb,
            lb + name.len() + value.len() + 6 + more.len(),
        ),
{
    let oe = ber_element(0x06, name);
    let vae = ber_element(value_tag, value);
    let bc = oe + vae;
    let be = ber_element(0x30, bc);
    let lend = lb + be.len() + more.len();
    lemma_stands_split(s, lb, be, more);
    lemma_short_element_read(s, lb, lend, 0x30, bc);
    lemma_stands_content(s, lb, 0x30, bc);
    let pb = lb + 2;
    let pend = lb + be.len();
    lemma_stands_split(s, pb, oe, vae);
    lemma_short_element_read(s, pb, pend, 0x06, name);
    let vp = pb + oe.len();
    lemma_short_element_read(s, vp, pend, value_tag, value);
    assert(value_ok(s, vp, pend));
}

proof fn lemma_pdu_accepted(
    s: Seq<u8>,
    q: int,
    req_id: Seq<u8>,
    error_status: Seq<u8>,
    error_index: Seq<u8>,
    name: Seq<u8>,
    value_tag: u8,
    value: Seq<u8>,
    more: Seq<u8>,
)
    requires
        stands_at(
            s,
            q,
            ber_element(0x02, req_id) + ber_element(0x02, error_status) + ber_element(0x02, error_index)
                + ber_element(
                0x30,
                ber_element(0x30, ber_element(0x06, name) + ber_element(value_tag, value)) + more,
            ),
        ),
        req_id.len() + error_status.len() + error_index.len() + name.len() + value.len() + more.len()
            + 14 < 128,
        req_id.len() > 0,
        error_status.len() > 0,
        error_index.len() > 0,
        value_is_int(value_tag) ==> value.len() > 0,
    ensures
        pdu_ok(
            s,
            q,
            q + req_id.len() + error_status.len() + error_index.len() + name.len() + value.len()
                + more.len() + 14,
        ),
{
    let re = ber_element(0x02, req_id);
    let se = ber_element(0x02, error_status);
    let ie = ber_element(0x02, error_index);
    let lc = ber_element(0x30, ber_element(0x06, name) + ber_element(value_tag, value)) + more;
    let le = ber_element(0x30, lc);
    let qe = q + re.len() + se.len() + ie.len() + le.len();
    lemma_stands_split(s, q, re + se + ie, le);
    lemma_stands_split(s, q, re + se, ie);
    lemma_stands_split(s, q, re, se);
    let p1 = q + re.len();
    let p2 = p1 + se.len();
    let p3 = p2 + ie.len();
    lemma_short_element_read(s, q, qe, 0x02, req_id);
    lemma_short_element_read(s, p1, qe, 0x02, error_status);
    lemma_short_element_read(s, p2, qe, 0x02, error_index);
    lemma_short_element_read(s, p3, qe, 0x30, lc);
    lemma_stands_content(s, p3, 0x30, lc);
    lemma_first_binding_accepted(s, p3 + 2, name, value_tag, value, more);
}

/// Every well-formed GetResponse passes the length check, so that the
/// decoder's own answer is what the receiver returns for it: every element
/// with a sound length and every INTEGER-like element with at least one
/// content octet, whatever the octets hold.
pub proof fn lemma_well_formed_response_accepted(
    version: Seq<u8>,
    community: Seq<u8>,
    req_id: Seq<u8>,
    error_status: Seq<u8>,
    error_index: Seq<u8>,
    name: Seq<u8>,
    value_tag: u8,
    value: Seq<u8>,
    more: Seq<u8>,
)
    requires
        version.len() > 0,
        req_id.len() > 0,
        error_status.len() > 0,
        error_index.len() > 0,
        value_is_int(value_tag) ==> value.len() > 0,
        get_response_bytes(
            version,
            community,
            req_id,
            error_status,
            error_index,
            name,
            value_tag,
            value,
            more,
        ).len() < 130,
    ensures
        ber_lengths_ok(
            get_response_bytes(
                version,
                community,
                req_id,
                error_status,
                error_index,
                name,
                value_tag,
                value,
                more,
            ),
        ),
{
    let ve = ber_element(0x02, version);
    let ce = ber_element(0x04, community);
    let lc = ber_element(0x30, ber_element(0x06, name) + ber_element(value_tag, value)) + more;
    let pc = ber_element(0x02, req_id) + ber_element(0x02, error_status) + ber_element(
        0x02,
        error_index,
    ) + ber_element(0x30, lc);
    let pe = ber_element(0xa2, pc);
    let mc = ve + ce + pe;
    let s = ber_element(0x30, mc);
    let n = s.len() as int;
    assert(s.subrange(0, n) =~= s);
    lemma_short_element_read(s, 0, n, 0x30, mc);
    lemma_stands_content(s, 0, 0x30, mc);
    let b = 2int;
    lemma_stands_split(s, b, ve + ce, pe);
    lemma_stands_split(s, b, ve, ce);
    let v = b + ve.len();
    let c = v + ce.len();
    lemma_short_element_read(s, b, n, 0x02, version);
    lemma_short_element_read(s, v, n, 0x04, community);
    lemma_short_element_read(s, c, n, 0xa2, pc);
    lemma_stands_content(s, c, 0xa2, pc);
    lemma_pdu_accepted(s, c + 2, req_id, error_status, error_index, name, value_tag, value, more);
    assert(message_ok(s, b, n));
}

/// What the decoder yields for the datagram `bytes`: `None` when
/// `SnmpPdu::from_bytes` refuses it, else its request id and the value of its
/// first variable binding (`None` when `Varbinds::next` yields none).
pub uninterp spec fn snmp_decode_response(bytes: Seq<u8>) -> Option<(i32, Option<SnmpValue>)>;

/// `snmp::SnmpPdu::from_bytes` on `bytes`, then `Varbinds::next` on its
/// bindings, with the value sorted into `SnmpValue`. The result is named
/// `snmp_decode_response`, a function of the bytes alone. Both calls panic on
/// some malformed long-form length headers and on empty INTEGER-like
/// elements; `requires` leaves those out.
#[verifier::external_body]
fn decode_response(bytes: &[u8]) -> (r: Option<(i32, Option<SnmpValue>)>)
    requires
        ber_lengths_ok(bytes@),
    ensures
        r == snmp_decode_response(bytes@),
{
    match snmp::SnmpPdu::from_bytes(bytes) {
        Ok(mut pdu) => {
            let first = match pdu.varbinds.next() {
                Some((_, snmp::Value::Counter32(v))) => Some(SnmpValue::Counter32(v)),
                Some((_, snmp::Value::Counter64(v))) => Some(SnmpValue::Counter64(v)),
                Some((_, snmp::Value::Integer(v))) => Some(SnmpValue::Integer(v)),
                Some(_) => Some(SnmpValue::Other),
                None => None,
            };
            Some((pdu.req_id, first))
        },
        Err(_) => None,
    }
}

/// Exec form of `TlvRead`.
enum Tlv {
    Panic,
    Fail(usize),
    Read { ident: u8, body: usize, end: usize },
}

spec fn tlv_matches(t: Tlv, r: TlvRead) -> bool {
    match t {
        Tlv::Panic => r is Panic,
        Tlv::Fail(at) => r == (TlvRead::Fail { at: at as int }),
        Tlv::Read { ident, body, end } => r == (TlvRead::Read { ident, body: body as int, end: end as int }),
    }
}

proof fn lemma_be_value_bound(s: Seq<u8>, from: int, n: nat)
    ensures
        be_value(s, from, n) < pow256(n),
    decreases n,
{
    if n > 0 {
        lemma_be_value_bound(s, from, (n - 1) as nat);
        let v = be_value(s, from, (n - 1) as nat);
        let p = pow256((n - 1) as nat);
        let b = s[from + n - 1] as nat;
        assert(v * 256 + b < p * 256) by (nonlinear_arith)
            requires v < p, b < 256;
    }
}

fn read_tlv_exec(s: &[u8], pos: usize, end: usize, expected: Option<u8>) -> (r: Tlv)
    requires
        pos <= end <= s@.len(),
    ensures
        tlv_matches(r, read_tlv(s@, pos as int, end as int, expected)),
        r matches Tlv::Fail(at) ==> at <= end,
        r matches Tlv::Read { body, end: e, .. } ==> body <= e <= end,
{
    if pos >= end {
        return Tlv::Fail(pos);
    }
    if let Some(x) = expected {
        if s[pos] != x {
            return Tlv::Fail(pos + 1);
        }
    }
    if pos + 1 >= end {
        return Tlv::Fail(pos + 1);
    }
    let h = s[pos + 1];
    if h < 0x80 {
        let body = pos + 2;
        if h as usize > end - body {
            Tlv::Fail(body)
        } else {
            Tlv::Read { ident: s[pos], body, end: body + h as usize }
        }
    } else if h == 0x80 || h == 0xff {
        Tlv::Fail(pos + 1)
    } else {
        let count = (h - 0x80) as usize;
        if count > (usize::BITS / 8) as usize || end - (pos + 2) < count {
            return Tlv::Panic;
        }
        assert(count <= 8);
        let from = pos + 2;
        let mut v: u128 = 0;
        let mut j: usize = 0;
        proof {
            reveal_with_fuel(pow256, 9);
        }
        while j < count
            invariant
                j <= count <= 8,
                from + count <= end <= s@.len(),
                v == be_value(s@, from as int, j as nat),
                pow256(8) == 18446744073709551616,
                forall|k: nat| k <= 8 ==> #[trigger] pow256(k) <= pow256(8),
            decreases count - j,
        {
            proof {
                lemma_be_value_bound(s@, from as int, j as nat);
                assert(pow256(j as nat) <= pow256(8));
            }
            v = v * 256 + s[from + j] as u128;
            j = j + 1;
        }
        let body = from + count;
        if v > (end - body) as u128 {
            Tlv::Fail(body)
        } else {
            Tlv::Read { ident: s[pos], body, end: body + v as usize }
        }
    }
}

fn read_int_exec(s: &[u8], pos: usize, end: usize, expected: Option<u8>) -> (r: Tlv)
    requires
        pos <= end <= s@.len(),
    ensures
        tlv_matches(r, read_int(s@, pos as int, end as int, expected)),
        r matches Tlv::Fail(at) ==> at <= end,
        r matches Tlv::Read { body, end: e, .. } ==> body <= e <= end,
{
    match read_tlv_exec(s, pos, end, expected) {
        Tlv::Read { ident, body, end: e } => {
            if body == e {
                Tlv::Panic
            } else {
                Tlv::Read { ident, body, end: e }
            }
        },
        r => r,
    }
}

fn value_ok_exec(s: &[u8], p: usize, e: usize) -> (r: bool)
    requires
        p <= e <= s@.len(),
    ensures
        r == value_ok(s@, p as int, e as int),
{
    if p >= e {
        return true;
    }
    let id = s[p];
    let reads = id == 0x02 || id == 0x04 || id == 0x05 || id == 0x06 || (0x40 <= id && id <= 0x44)
        || id == 0x46 || id & 0x20u8 == 0x20u8;
    if !reads {
        return true;
    }
    let is_int = id == 0x02 || id == 0x41 || id == 0x42 || id == 0x43 || id == 0x46;
    let r = if is_int { read_int_exec(s, p, e, Some(id)) } else { read_tlv_exec(s, p, e, Some(id)) };
    match r {
        Tlv::Panic => false,
        _ => true,
    }
}

fn first_binding_ok_exec(s: &[u8], b: usize, e: usize) -> (r: bool)
    requires
        b <= e <= s@.len(),
    ensures
        r == first_binding_ok(s@, b as int, e as int),
{
    match read_tlv_exec(s, b, e, Some(0x30)) {
        Tlv::Panic => false,
        Tlv::Fail(_) => true,
        Tlv::Read { body: pb, end: pe, .. } => match read_tlv_exec(s, pb, pe, Some(0x06)) {
            Tlv::Panic => false,
            Tlv::Fail(at) => value_ok_exec(s, at, pe),
            Tlv::Read { end: oe, .. } => value_ok_exec(s, oe, pe),
        },
    }
}

fn pdu_ok_exec(s: &[u8], b: usize, e: usize) -> (r: bool)
    requires
        b <= e <= s@.len(),
    ensures
        r == pdu_ok(s@, b as int, e as int),
{
    let p1 = match read_int_exec(s, b, e, Some(0x02)) {
        Tlv::Panic => return false,
        Tlv::Fail(_) => return true,
        Tlv::Read { end, .. } => end,
    };
    let p2 = match read_int_exec(s, p1, e, Some(0x02)) {
        Tlv::Panic => return false,
        Tlv::Fail(_) => return true,
        Tlv::Read { end, .. } => end,
    };
    let p3 = match read_int_exec(s, p2, e, Some(0x02)) {
        Tlv::Panic => return false,
        Tlv::Fail(_) => return true,
        Tlv::Read { end, .. } => end,
    };
    match read_tlv_exec(s, p3, e, Some(0x30)) {
        Tlv::Panic => false,
        Tlv::Fail(_) => true,
        Tlv::Read { body: lb, end: le, .. } => first_binding_ok_exec(s, lb, le),
    }
}

fn message_ok_exec(s: &[u8], b: usize, e: usize) -> (r: bool)
    requires
        b <= e <= s@.len(),
    ensures
        r == message_ok(s@, b as int, e as int),
{
    let v = match read_int_exec(s, b, e, Some(0x02)) {
        Tlv::Panic => return false,
        Tlv::Fail(_) => return true,
        Tlv::Read { end, .. } => end,
    };
    let c = match read_tlv_exec(s, v, e, Some(0x04)) {
        Tlv::Panic => return false,
        Tlv::Fail(_) => return true,
        Tlv::Read { end, .. } => end,
    };
    if c >= e {
        return true;
    }
    match read_tlv_exec(s, c, e, None) {
        Tlv::Panic => false,
        Tlv::Fail(_) => true,
        Tlv::Read { body: pb, end: pe, .. } => pdu_ok_exec(s, pb, pe),
    }
}

fn ber_lengths_ok_exec(s: &[u8]) -> (r: bool)
    ensures
        r == ber_lengths_ok(s@),
{
    match read_tlv_exec(s, 0, s.len(), Some(0x30)) {
        Tlv::Panic => false,
        Tlv::Fail(_) => true,
        Tlv::Read { body, end, .. } => message_ok_exec(s, body, end),
    }
}

/// Why no value pair could be read from a datagram.
#[derive(Debug, Clone, Copy, PartialEq, Eq)]
pub enum PacketError {
    /// An element that the decoder would read is malformed in a way the
    /// decoder cannot survive (an unsound length header, or an empty
    /// INTEGER-like element).
    UnsafeLengths,
    /// The decoder refuses the datagram.
    Undecodable,
}

/// The value pair that the receiver stores for the response datagram
/// `bytes`: its request id and the value of its first binding, as
/// `reading_for_response` turns them into a value pair; `Ok(None)` when the
/// response has no binding.
pub fn reading_for_packet(bytes: &[u8]) -> (r: Result<Option<ValuePair>, PacketError>)
    ensures
        !ber_lengths_ok(bytes@) ==> r matches Err(PacketError::UnsafeLengths),
        ber_lengths_ok(bytes@) ==> match snmp_decode_response(bytes@) {
            None => r matches Err(PacketError::Undecodable),
            Some((id, first)) => r matches Ok(reading) && {
                &&& reading is None <==> first is None
                &&& reading matches Some(vp) ==> {
                    &&& vp.id == id
                    &&& vp.vtype == vtype_of(first->0)
                    &&& vp.value as int == numeric_value_of(first->0)
                }
            },
        },
{
    if !ber_lengths_ok_exec(bytes) {
        return Err(PacketError::UnsafeLengths);
    }
    match decode_response(bytes) {
        None => Err(PacketError::Undecodable),
        Some((id, first)) => Ok(reading_for_response(id, first)),
    }
}

} // verus!
