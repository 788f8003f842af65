//! Readings: the value that an SNMP response carries, turned into the row
//! that the collector stores.

use vstd::prelude::*;

verus! {

#[verifier::external_type_specification]
#[verifier::external_body]
pub struct ExSystemTime(std::time::SystemTime);

/// `std::time::SystemTime::now`: the current wall-clock time. Nothing is
/// promised of the value.
#[verifier::external_body]
fn system_time_now() -> std::time::SystemTime {
    std::time::SystemTime::now()
}

/// Value type recorded for a `Counter32` value.
pub const VTYPE_COUNTER32: i32 = 64;

/// Value type recorded for a `Counter64` value.
pub const VTYPE_COUNTER64: i32 = 70;

/// Value type recorded for an `Integer` value.
pub const VTYPE_INTEGER: i32 = 80;

/// Value type recorded for any other value.
pub const VTYPE_OTHER: i32 = 0;

/// The value of the first variable binding of a response, as far as the
/// collector distinguishes it.
#[derive(Debug, Clone, Copy, PartialEq, Eq)]
pub enum SnmpValue {
    Counter32(u32),
    Counter64(u64),
    Integer(i64),
    /// Any other kind of value (string, OID, null, time ticks, ...).
    Other,
}

/// The value type that the collector records for `v`.
pub open spec fn vtype_of(v: SnmpValue) -> i32 {
    match v {
        SnmpValue::Counter32(_) => VTYPE_COUNTER32,
        SnmpValue::Counter64(_) => VTYPE_COUNTER64,
        SnmpValue::Integer(_) => VTYPE_INTEGER,
        SnmpValue::Other => VTYPE_OTHER,
    }
}

/// The numeric value that the collector records for `v` (`0` for other kinds).
pub open spec fn numeric_value_of(v: SnmpValue) -> int {
    match v {
        SnmpValue::Counter32(n) => n as int,
        SnmpValue::Counter64(n) => n as int,
        SnmpValue::Integer(n) => n as int,
        SnmpValue::Other => 0,
    }
}

/// The value type depends on the kind of value alone, and the value is
/// recorded as it is: every `Counter32` is recorded with value type 64, every
/// `Counter64` with 70, every `Integer` with 80, whatever their size or sign,
/// and anything else with value type 0 and value 0.
pub proof fn lemma_vtype_by_kind(a: u32, b: u64, c: i64)
    ensures
        vtype_of(SnmpValue::Counter32(a)) == 64,
        vtype_of(SnmpValue::Counter64(b)) == 70,
        vtype_of(SnmpValue::Integer(c)) == 80,
        vtype_of(SnmpValue::Other) == 0,
        numeric_value_of(SnmpValue::Counter32(a)) == a,
        numeric_value_of(SnmpValue::Counter64(b)) == b,
        numeric_value_of(SnmpValue::Integer(c)) == c,
        numeric_value_of(SnmpValue::Other) == 0,
{
}

/// One collected value: the polled-data id, the time it was recorded, its
/// value type and its numeric value. The value is held exactly as an integer;
/// the database column stores it as a double.
#[derive(Debug)]
pub struct ValuePair {
    pub timestamp: std::time::SystemTime,
    pub id: i32,
    pub vtype: i32,
    pub value: i128,
}

impl ValuePair {
    /// A value pair stamped with the current time.
    pub fn new(id: i32, vtype: i32, value: i128) -> (r: ValuePair)
        ensures
            r.id == id,
            r.vtype == vtype,
            r.value == value,
    {
        ValuePair { id, value, vtype, timestamp: system_time_now() }
    }

    /// The value pair recorded for the value `v` of the polled-data item `id`.
    pub fn from_value(id: i32, v: SnmpValue) -> (r: ValuePair)
        ensures
            r.id == id,
            r.vtype == vtype_of(v),
            r.value as int == numeric_value_of(v),
    {
        match v {
            SnmpValue::Counter32(n) => ValuePair::new(id, VTYPE_COUNTER32, n as i128),
            SnmpValue::Counter64(n) => ValuePair::new(id, VTYPE_COUNTER64, n as i128),
            SnmpValue::Integer(n) => ValuePair::new(id, VTYPE_INTEGER, n as i128),
            SnmpValue::Other => ValuePair::new(id, VTYPE_OTHER, 0),
        }
    }
}

/// What the receiver records for a response with request id `req_id` whose
/// first variable binding holds `first` (`None` when the response has no
/// binding): nothing without a binding, else the value pair of that value
/// under the request id.
pub fn reading_for_response(req_id: i32, first: Option<SnmpValue>) -> (r: Option<ValuePair>)
    ensures
        r is None <==> first is None,
        r matches Some(vp) ==> {
            &&& vp.id == req_id
            &&& vp.vtype == vtype_of(first->0)
            &&& vp.value as int == numeric_value_of(first->0)
        },
{
    match first {
        Some(v) => Some(ValuePair::from_value(req_id, v)),
        None => None,
    }
}

} // verus!
