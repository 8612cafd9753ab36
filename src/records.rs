//! Record sets as a hosted zone lists them, and the address records read from them.

use vstd::prelude::*;
use crate::text::{unescape_wildcards, unescaped};

verus! {

/// One value of a record set.
#[derive(Clone, Debug, PartialEq, Eq)]
pub struct ResourceRecord {
    pub value: String,
}

/// A record set of a hosted zone: its name, its type tag, its time to live and
/// its values.
#[derive(Clone, Debug, PartialEq, Eq)]
pub struct ResourceRecordSet {
    pub name: String,
    pub type_: String,
    pub ttl: Option<i64>,
    pub resource_records: Option<Vec<ResourceRecord>>,
}

/// An address record of the zone, reduced to its name and its first value.
#[derive(Clone, Debug, PartialEq, Eq)]
pub struct Record {
    pub domain: String,
    pub resource: String,
}

impl View for Record {
    type V = (Seq<char>, Seq<char>);

    open spec fn view(&self) -> (Seq<char>, Seq<char>) {
        (self.domain@, self.resource@)
    }
}

/// Why a record set yields no address record.
#[derive(Clone, Copy, Debug, PartialEq, Eq)]
pub enum RecordError {
    /// The record set holds no value.
    NoResource,
}

/// The records of a vector, each by its view.
pub open spec fn record_views(v: Seq<Record>) -> Seq<(Seq<char>, Seq<char>)> {
    v.map_values(|r: Record| r@)
}

/// The first value of a record set, if it has one.
pub open spec fn first_value(set: ResourceRecordSet) -> Option<Seq<char>> {
    match set.resource_records {
        Some(v) => if v@.len() > 0 {
            Some(v@[0].value@)
        } else {
            None
        },
        None => None,
    }
}

/// A record set of address type.
pub open spec fn is_address(set: ResourceRecordSet) -> bool {
    set.type_@ == seq!['A']
}

/// The address record a record set stands for, if any: its unescaped name and
/// its first value.
pub open spec fn record_of(set: ResourceRecordSet) -> Option<(Seq<char>, Seq<char>)> {
    if is_address(set) {
        match first_value(set) {
            Some(v) => Some((unescaped(set.name@), v)),
            None => None,
        }
    } else {
        None
    }
}

/// The address records of a listing, in listing order; record sets of other
/// types, and those with no value, are left out.
pub open spec fn address_records(sets: Seq<ResourceRecordSet>) -> Seq<(Seq<char>, Seq<char>)> {
    sets.filter_map(|s: ResourceRecordSet| record_of(s))
}

/// The first value of a record set.
pub fn get_first_resource_from_record(record: &ResourceRecordSet) -> (r: Result<String, RecordError>)
    ensures
        match first_value(*record) {
            Some(v) => r is Ok && r->Ok_0@ == v,
            None => r == Err::<String, RecordError>(RecordError::NoResource),
        },
{
    match &record.resource_records {
        Some(v) => {
            if v.len() > 0 {
                Ok(v[0].value.clone())
            } else {
                Err(RecordError::NoResource)
            }
        },
        None => Err(RecordError::NoResource),
    }
}

/// The address record of a record set: its name with wildcards unescaped and
/// its first value.
pub fn record_set_to_internal_record(record: &ResourceRecordSet) -> (r: Result<Record, RecordError>)
    ensures
        match first_value(*record) {
            Some(v) => r is Ok && r->Ok_0@ == (unescaped(record.name@), v),
            None => r == Err::<Record, RecordError>(RecordError::NoResource),
        },
{
    let resource = get_first_resource_from_record(record)?;
    Ok(Record { domain: unescape_wildcards(record.name.as_str()), resource })
}

/// Whether a record set is of address type.
pub fn is_address_set(set: &ResourceRecordSet) -> (r: bool)
    ensures
        r == is_address(*set),
{
    let t = set.type_.as_str();
    let r = t.unicode_len() == 1 && t.get_char(0) == 'A';
    assert(r == (set.type_@ =~= seq!['A']));
    r
}

/// The address records of a zone listing, in listing order.
pub fn address_records_of(sets: &Vec<ResourceRecordSet>) -> (r: Vec<Record>)
    ensures
        record_views(r@) == address_records(sets@),
{
    let mut out: Vec<Record> = Vec::new();
    let mut i: usize = 0;
    while i < sets.len()
        invariant
            i <= sets@.len(),
            record_views(out@) == address_records(sets@.take(i as int)),
        decreases sets@.len() - i,
    {
        let ghost before = out@;
        assert(sets@.take(i + 1).drop_last() =~= sets@.take(i as int));
        if is_address_set(&sets[i]) {
            match record_set_to_internal_record(&sets[i]) {
                Ok(rec) => {
                    out.push(rec);
                    assert(record_views(out@) =~= record_views(before).push(rec@));
                },
                Err(_) => {},
            }
        }
        i += 1;
    }
    assert(sets@.take(sets@.len() as int) =~= sets@);
    out
}

} // verus!
