//! The reconciliation pass: which configured domains are stale, and the change
//! batch that points them at the current address.

use vstd::prelude::*;
use crate::records::{Record, ResourceRecord, ResourceRecordSet, record_views};
use crate::text::{has_prefix, starts_with};

verus! {

/// Time to live, in seconds, of every record this library writes.
pub const RECORD_TTL: i64 = 600;

/// The hosted zone to keep up to date and the domains it should resolve.
#[derive(Clone, Debug, PartialEq, Eq)]
pub struct Config {
    pub hosted_zone_id: String,
    pub records: Vec<String>,
}

/// What a change does to its record set.
#[derive(Clone, Copy, Debug, PartialEq, Eq)]
pub enum ChangeAction {
    /// Create the record set, or replace it where it exists.
    Upsert,
}

/// One change of a batch.
#[derive(Clone, Debug, PartialEq, Eq)]
pub struct Change {
    pub action: ChangeAction,
    pub resource_record_set: ResourceRecordSet,
}

/// Changes applied together, as one atomic request.
#[derive(Clone, Debug, PartialEq, Eq)]
pub struct ChangeBatch {
    pub changes: Vec<Change>,
    pub comment: Option<String>,
}

/// A change batch addressed to a hosted zone.
#[derive(Clone, Debug, PartialEq, Eq)]
pub struct ChangeResourceRecordSetsRequest {
    pub hosted_zone_id: String,
    pub change_batch: ChangeBatch,
}

/// A record set as plain values.
pub struct RecordSetModel {
    pub name: Seq<char>,
    pub record_type: Seq<char>,
    pub ttl: Option<i64>,
    pub values: Option<Seq<Seq<char>>>,
}

/// A change as plain values.
pub struct ChangeModel {
    pub action: ChangeAction,
    pub record_set: RecordSetModel,
}

/// A request as plain values.
pub struct RequestModel {
    pub hosted_zone_id: Seq<char>,
    pub changes: Seq<ChangeModel>,
    pub comment: Option<Seq<char>>,
}

impl View for ResourceRecordSet {
    type V = RecordSetModel;

    open spec fn view(&self) -> RecordSetModel {
        RecordSetModel {
            name: self.name@,
            record_type: self.type_@,
            ttl: self.ttl,
            values: match self.resource_records {
                Some(v) => Some(v@.map_values(|r: ResourceRecord| r.value@)),
                None => None,
            },
        }
    }
}

impl View for Change {
    type V = ChangeModel;

    open spec fn view(&self) -> ChangeModel {
        ChangeModel { action: self.action, record_set: self.resource_record_set@ }
    }
}

impl View for ChangeBatch {
    type V = (Seq<ChangeModel>, Option<Seq<char>>);

    open spec fn view(&self) -> (Seq<ChangeModel>, Option<Seq<char>>) {
        (
            self.changes@.map_values(|c: Change| c@),
            match self.comment {
                Some(c) => Some(c@),
                None => None,
            },
        )
    }
}

impl View for ChangeResourceRecordSetsRequest {
    type V = RequestModel;

    open spec fn view(&self) -> RequestModel {
        RequestModel {
            hosted_zone_id: self.hosted_zone_id@,
            changes: self.change_batch@.0,
            comment: self.change_batch@.1,
        }
    }
}

/// The strings of a vector, each by its characters.
pub open spec fn string_views(v: Seq<String>) -> Seq<Seq<char>> {
    v.map_values(|s: String| s@)
}

/// The existing records, where the zone could be read.
pub open spec fn existing_view(existing: Option<&Vec<Record>>) -> Option<Seq<(Seq<char>, Seq<char>)>> {
    match existing {
        Some(v) => Some(record_views(v@)),
        None => None,
    }
}

/// Some existing record has a name that starts with `d` and holds `ip`.
pub open spec fn is_current(d: Seq<char>, ip: Seq<char>, existing: Seq<(Seq<char>, Seq<char>)>) -> bool {
    exists|k: int| 0 <= k < existing.len() && has_prefix(#[trigger] existing[k].0, d) && existing[k].1 == ip
}

/// `d` needs an update: the zone could not be read, or no record of it holds `ip`.
pub open spec fn is_stale(d: Seq<char>, ip: Seq<char>, existing: Option<Seq<(Seq<char>, Seq<char>)>>) -> bool {
    match existing {
        Some(e) => !is_current(d, ip, e),
        None => true,
    }
}

/// The stale domains among `desired`, in their order, duplicates kept.
pub open spec fn stale_domains(
    desired: Seq<Seq<char>>,
    ip: Seq<char>,
    existing: Option<Seq<(Seq<char>, Seq<char>)>>,
) -> Seq<Seq<char>> {
    desired.filter(|d: Seq<char>| is_stale(d, ip, existing))
}

/// The address record set that points `domain` at `ip`.
pub open spec fn a_record(domain: Seq<char>, ip: Seq<char>) -> RecordSetModel {
    RecordSetModel {
        name: domain,
        record_type: seq!['A'],
        ttl: Some(RECORD_TTL),
        values: Some(seq![ip]),
    }
}

/// One upsert of an address record for each domain, in order.
pub open spec fn upsert_changes(domains: Seq<Seq<char>>, ip: Seq<char>) -> Seq<ChangeModel> {
    domains.map_values(|d: Seq<char>| ChangeModel { action: ChangeAction::Upsert, record_set: a_record(d, ip) })
}

/// Whether some existing record has a name that starts with `d` and holds `ip`.
pub fn has_current_record(d: &String, ip: &String, existing: &Vec<Record>) -> (r: bool)
    ensures
        r == is_current(d@, ip@, record_views(existing@)),
{
    let ghost ev = record_views(existing@);
    let mut j: usize = 0;
    while j < existing.len()
        invariant
            j <= existing@.len(),
            ev == record_views(existing@),
            forall|k: int| 0 <= k < j ==> !(has_prefix(#[trigger] ev[k].0, d@) && ev[k].1 == ip@),
        decreases existing@.len() - j,
    {
        let e = &existing[j];
        if starts_with(e.domain.as_str(), d.as_str()) && e.resource == *ip {
            assert(has_prefix(ev[j as int].0, d@) && ev[j as int].1 == ip@);
            return true;
        }
        j += 1;
    }
    false
}

/// The domains of `desired` that need an update, in their order. With no
/// existing records (the zone could not be read) every domain is stale.
pub fn compute_stale(desired: &Vec<String>, current_ip: &String, existing: Option<&Vec<Record>>) -> (r: Vec<String>)
    ensures
        string_views(r@) == stale_domains(string_views(desired@), current_ip@, existing_view(existing)),
{
    let ghost ev = existing_view(existing);
    let ghost pred = |d: Seq<char>| is_stale(d, current_ip@, ev);
    let mut out: Vec<String> = Vec::new();
    let mut i: usize = 0;
    while i < desired.len()
        invariant
            i <= desired@.len(),
            ev == existing_view(existing),
            pred == (|d: Seq<char>| is_stale(d, current_ip@, ev)),
            string_views(out@) == string_views(desired@.take(i as int)).filter(pred),
        decreases desired@.len() - i,
    {
        let ghost before = out@;
        let d = &desired[i];
        let stale = match existing {
            Some(e) => !has_current_record(d, current_ip, e),
            None => true,
        };
        proof {
            reveal(Seq::filter);
            assert(string_views(desired@.take(i + 1)).drop_last() =~= string_views(desired@.take(i as int)));
            assert(string_views(desired@.take(i + 1)).last() == d@);
        }
        if stale {
            out.push(d.clone());
            assert(string_views(out@) =~= string_views(before).push(d@));
        }
        i += 1;
    }
    assert(desired@.take(desired@.len() as int) =~= desired@);
    out
}

/// The address record set that points `domain` at `ip`.
pub fn a_record_set(domain: &String, ip: &String) -> (r: ResourceRecordSet)
    ensures
        r@ == a_record(domain@, ip@),
{
    let type_ = String::from_str("A");
    proof {
        reveal_strlit("A");
    }
    let r = ResourceRecordSet {
        name: domain.clone(),
        type_,
        ttl: Some(RECORD_TTL),
        resource_records: Some(vec![ResourceRecord { value: ip.clone() }]),
    };
    assert(r@.values->0 =~= seq![ip@]);
    assert(r@.record_type =~= seq!['A']);
    r
}

/// The batch that upserts an address record at `ip` for each domain, in order,
/// with no comment.
pub fn upsert_batch(domains: &Vec<String>, ip: &String) -> (r: ChangeBatch)
    ensures
        r@ == (upsert_changes(string_views(domains@), ip@), None::<Seq<char>>),
{
    let mut changes: Vec<Change> = Vec::new();
    let mut i: usize = 0;
    while i < domains.len()
        invariant
            i <= domains@.len(),
            changes@.map_values(|c: Change| c@) =~= upsert_changes(string_views(domains@.take(i as int)), ip@),
        decreases domains@.len() - i,
    {
        let ghost before = changes@;
        let c = Change { action: ChangeAction::Upsert, resource_record_set: a_record_set(&domains[i], ip) };
        changes.push(c);
        assert(string_views(domains@.take(i + 1)) =~= string_views(domains@.take(i as int)).push(domains@[i as int]@));
        assert(changes@.map_values(|c: Change| c@) =~= before.map_values(|c: Change| c@).push(c@));
        i += 1;
    }
    assert(domains@.take(domains@.len() as int) =~= domains@);
    ChangeBatch { changes, comment: None }
}

/// Filtering keeps a sequence whole where every element passes.
proof fn lemma_filter_keeps_all(s: Seq<Seq<char>>, pred: spec_fn(Seq<char>) -> bool)
    requires
        forall|i: int| 0 <= i < s.len() ==> pred(#[trigger] s[i]),
    ensures
        s.filter(pred) == s,
    decreases s.len(),
{
    reveal(Seq::filter);
    if s.len() > 0 {
        assert forall|i: int| 0 <= i < s.drop_last().len() implies pred(#[trigger] s.drop_last()[i]) by {
            assert(s.drop_last()[i] == s[i]);
        }
        lemma_filter_keeps_all(s.drop_last(), pred);
        assert(s.drop_last().push(s.last()) =~= s);
    }
}

/// Filtering leaves nothing where no element passes.
proof fn lemma_filter_drops_all(s: Seq<Seq<char>>, pred: spec_fn(Seq<char>) -> bool)
    requires
        forall|i: int| 0 <= i < s.len() ==> !pred(#[trigger] s[i]),
    ensures
        s.filter(pred).len() == 0,
    decreases s.len(),
{
    reveal(Seq::filter);
    if s.len() > 0 {
        assert forall|i: int| 0 <= i < s.drop_last().len() implies !pred(#[trigger] s.drop_last()[i]) by {
            assert(s.drop_last()[i] == s[i]);
        }
        lemma_filter_drops_all(s.drop_last(), pred);
    }
}

/// Where the zone could not be read, every desired domain is stale: the stale
/// domains are the desired ones, in the same order.
pub proof fn lemma_unread_zone_all_stale(desired: Seq<Seq<char>>, ip: Seq<char>)
    ensures
        stale_domains(desired, ip, None) == desired,
{
    lemma_filter_keeps_all(desired, |d: Seq<char>| is_stale(d, ip, None));
}

/// Where every desired domain has an existing record at the current address,
/// no domain is stale.
pub proof fn lemma_all_current_none_stale(
    desired: Seq<Seq<char>>,
    ip: Seq<char>,
    existing: Seq<(Seq<char>, Seq<char>)>,
)
    requires
        forall|i: int| 0 <= i < desired.len() ==> is_current(#[trigger] desired[i], ip, existing),
    ensures
        stale_domains(desired, ip, Some(existing)).len() == 0,
{
    lemma_filter_drops_all(desired, |d: Seq<char>| is_stale(d, ip, Some(existing)));
}

/// A domain is up to date where an existing record whose name is the domain
/// followed by more text holds the current address: names match by prefix.
pub proof fn lemma_prefix_record_is_current(
    desired: Seq<Seq<char>>,
    d: Seq<char>,
    suffix: Seq<char>,
    ip: Seq<char>,
    existing: Seq<(Seq<char>, Seq<char>)>,
    k: int,
)
    requires
        0 <= k < existing.len(),
        existing[k] == (d + suffix, ip),
    ensures
        !stale_domains(desired, ip, Some(existing)).contains(d),
{
    let pred = |x: Seq<char>| is_stale(x, ip, Some(existing));
    assert((d + suffix).subrange(0, d.len() as int) =~= d);
    assert(has_prefix(existing[k].0, d));
    assert(is_current(d, ip, existing));
    if desired.filter(pred).contains(d) {
        let i = choose|i: int| 0 <= i < desired.filter(pred).len() && desired.filter(pred)[i] == d;
        desired.lemma_filter_pred(pred, i);
    }
}

/// Once the current address differs from the one that every existing record
/// holds, every desired domain is stale, in order.
pub proof fn lemma_new_address_all_stale(
    desired: Seq<Seq<char>>,
    existing: Seq<(Seq<char>, Seq<char>)>,
    old_ip: Seq<char>,
    new_ip: Seq<char>,
)
    requires
        old_ip != new_ip,
        forall|k: int| 0 <= k < existing.len() ==> (#[trigger] existing[k]).1 == old_ip,
    ensures
        stale_domains(desired, new_ip, Some(existing)) == desired,
{
    lemma_filter_keeps_all(desired, |d: Seq<char>| is_stale(d, new_ip, Some(existing)));
}

/// The changes built for a list of domains and an address depend on those
/// alone, and each is an upsert of an address record for its domain, with a
/// time to live of 600 seconds and the address as its single value.
pub proof fn lemma_upsert_changes_uniform(domains: Seq<Seq<char>>, ip: Seq<char>)
    ensures
        upsert_changes(domains, ip).len() == domains.len(),
        forall|i: int| 0 <= i < domains.len() ==> {
            let c = #[trigger] upsert_changes(domains, ip)[i];
            &&& c.action == ChangeAction::Upsert
            &&& c.record_set.name == domains[i]
            &&& c.record_set.record_type == seq!['A']
            &&& c.record_set.ttl == Some(600i64)
            &&& c.record_set.values == Some(seq![ip])
        },
{
}

} // verus!
