//! Reading the events that an outside contract emits in reply to a call.
use vstd::prelude::*;
use cosmwasm_std::StdError;

verus! {

#[verifier::external_type_specification]
#[verifier::external_body]
pub struct ExStdError(StdError);

/// One key/value attribute of an event.
#[derive(Debug)]
pub struct Attribute {
    pub key: String,
    pub value: String,
}

/// One event of a call's result.
#[derive(Debug)]
pub struct Event {
    pub ty: String,
    pub attributes: Vec<Attribute>,
}

pub open spec fn has_attr(e: Event, key: Seq<char>, value: Seq<char>) -> bool {
    exists|k: int|
        0 <= k < e.attributes@.len() && (#[trigger] e.attributes@[k]).key@ == key
            && e.attributes@[k].value@ == value
}

/// `i` is the first event that carries the attribute `key = value`.
pub open spec fn is_first_event(events: Seq<Event>, i: int, key: Seq<char>, value: Seq<char>) -> bool {
    &&& 0 <= i < events.len()
    &&& has_attr(events[i], key, value)
    &&& forall|j: int| 0 <= j < i ==> !has_attr(#[trigger] events[j], key, value)
}

/// `k` is the first attribute under `key`.
pub open spec fn is_first_attr(attrs: Seq<Attribute>, k: int, key: Seq<char>) -> bool {
    &&& 0 <= k < attrs.len()
    &&& attrs[k].key@ == key
    &&& forall|j: int| 0 <= j < k ==> (#[trigger] attrs[j]).key@ != key
}

pub open spec fn is_digit(c: char) -> bool {
    '0' <= c && c <= '9'
}

/// The number that a string of decimal digits writes.
pub open spec fn digits_value(s: Seq<char>) -> int
    decreases s.len(),
{
    if s.len() == 0 {
        0
    } else {
        digits_value(s.drop_last()) * 10 + (s.last() as int - '0' as int)
    }
}

/// The `u128` that `s` writes in decimal, with an optional leading `+`.
pub open spec fn decimal_u128(s: Seq<char>) -> Option<u128> {
    let d = if s.len() > 0 && s[0] == '+' {
        s.drop_first()
    } else {
        s
    };
    if d.len() > 0 && (forall|i: int| 0 <= i < d.len() ==> is_digit(#[trigger] d[i])) && digits_value(
        d,
    ) <= u128::MAX {
        Some(digits_value(d) as u128)
    } else {
        None
    }
}

/// Relies on cosmwasm_std::Uint128's `FromStr`, which reads `s` as `u128::from_str` does:
/// an optional `+`, then decimal digits only, of a value that fits.
#[verifier::external_body]
fn parse_u128(s: &String) -> (r: Result<u128, StdError>)
    ensures
        match r {
            Ok(v) => decimal_u128(s@) == Some(v),
            Err(_) => decimal_u128(s@) is None,
        },
{
    match <cosmwasm_std::Uint128 as std::str::FromStr>::from_str(s.as_str()) {
        Ok(v) => Ok(v.u128()),
        Err(e) => Err(e),
    }
}

/// Reads a decimal amount; `None` where `s` is not one.
pub fn parse_amount(s: &String) -> (r: Option<u128>)
    ensures
        r == decimal_u128(s@),
{
    match parse_u128(s) {
        Ok(v) => Some(v),
        Err(_) => None,
    }
}

/// Whether `e` carries the attribute `key = value`.
pub fn event_has_attr(e: &Event, key: &String, value: &String) -> (r: bool)
    ensures
        r == has_attr(*e, key@, value@),
{
    let mut k: usize = 0;
    while k < e.attributes.len()
        invariant
            0 <= k <= e.attributes@.len(),
            forall|j: int|
                0 <= j < k ==> !((#[trigger] e.attributes@[j]).key@ == key@ && e.attributes@[j].value@
                    == value@),
        decreases e.attributes@.len() - k,
    {
        if e.attributes[k].key.eq(key) && e.attributes[k].value.eq(value) {
            return true;
        }
        k += 1;
    }
    false
}

/// The first event that carries the attribute `key = value`.
pub fn find_event(events: &Vec<Event>, key: &String, value: &String) -> (r: Option<usize>)
    ensures
        match r {
            Some(i) => is_first_event(events@, i as int, key@, value@),
            None => forall|j: int| 0 <= j < events@.len() ==> !has_attr(#[trigger] events@[j], key@, value@),
        },
{
    let mut i: usize = 0;
    while i < events.len()
        invariant
            0 <= i <= events@.len(),
            forall|j: int| 0 <= j < i ==> !has_attr(#[trigger] events@[j], key@, value@),
        decreases events@.len() - i,
    {
        if event_has_attr(&events[i], key, value) {
            return Some(i);
        }
        i += 1;
    }
    None
}

/// The first attribute under `key`.
pub fn find_attr(attrs: &Vec<Attribute>, key: &String) -> (r: Option<usize>)
    ensures
        match r {
            Some(k) => is_first_attr(attrs@, k as int, key@),
            None => forall|j: int| 0 <= j < attrs@.len() ==> (#[trigger] attrs@[j]).key@ != key@,
        },
{
    let mut k: usize = 0;
    while k < attrs.len()
        invariant
            0 <= k <= attrs@.len(),
            forall|j: int| 0 <= j < k ==> (#[trigger] attrs@[j]).key@ != key@,
        decreases attrs@.len() - k,
    {
        if attrs[k].key.eq(key) {
            return Some(k);
        }
        k += 1;
    }
    None
}

} // verus!
