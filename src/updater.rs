//! One reconciliation run for a configured zone at a known current address.

use vstd::prelude::*;
use crate::records::{Record, ResourceRecordSet, address_records, address_records_of};
use crate::reconcile::{
    a_record, a_record_set, compute_stale, existing_view, stale_domains, string_views,
    upsert_batch, upsert_changes, ChangeBatch, ChangeResourceRecordSetsRequest, Config,
    RequestModel,
};

verus! {

/// A run of the updater: the configuration and the address resolved for it.
#[derive(Clone, Debug)]
pub struct AwsDynDns {
    pub current_ip: String,
    pub config: Config,
}

impl AwsDynDns {
    /// The domains of this run that need an update, given what the zone holds.
    pub open spec fn stale(&self, existing: Option<Seq<(Seq<char>, Seq<char>)>>) -> Seq<Seq<char>> {
        stale_domains(string_views(self.config.records@), self.current_ip@, existing)
    }

    /// The listing's address records, where the zone could be read.
    pub open spec fn existing_of(listing: Option<&Vec<ResourceRecordSet>>) -> Option<Seq<(Seq<char>, Seq<char>)>> {
        match listing {
            Some(sets) => Some(address_records(sets@)),
            None => None,
        }
    }

    /// A run for `config` that points records at `current_ip`.
    pub fn new(config: Config, current_ip: String) -> (r: Self)
        ensures
            r.config == config,
            r.current_ip == current_ip,
    {
        AwsDynDns { current_ip, config }
    }

    /// The address record set that points `domain` at the current address.
    pub fn create_a_record(&self, domain: &String) -> (r: ResourceRecordSet)
        ensures
            r@ == a_record(domain@, self.current_ip@),
    {
        a_record_set(domain, &self.current_ip)
    }

    /// The configured domains that are not up to date, in configured order.
    pub fn filter_up_to_date_records(&self, existing: Option<&Vec<Record>>) -> (r: Vec<String>)
        ensures
            string_views(r@) == self.stale(existing_view(existing)),
    {
        compute_stale(&self.config.records, &self.current_ip, existing)
    }

    /// The batch that upserts an address record for each stale domain.
    pub fn domains_to_change(&self, existing: Option<&Vec<Record>>) -> (r: ChangeBatch)
        ensures
            r@ == (upsert_changes(self.stale(existing_view(existing)), self.current_ip@), None::<Seq<char>>),
    {
        let stale = self.filter_up_to_date_records(existing);
        upsert_batch(&stale, &self.current_ip)
    }

    /// The request to send for this run, given the zone's listing (`None` where
    /// it could not be read); `None` where no domain is stale, and nothing is
    /// to be sent.
    pub fn do_update(&self, listing: Option<&Vec<ResourceRecordSet>>) -> (r: Option<ChangeResourceRecordSetsRequest>)
        ensures
            r is None <==> self.stale(Self::existing_of(listing)).len() == 0,
            r is Some ==> r->0@ == (RequestModel {
                hosted_zone_id: self.config.hosted_zone_id@,
                changes: upsert_changes(self.stale(Self::existing_of(listing)), self.current_ip@),
                comment: None,
            }),
    {
        let changes = match listing {
            Some(sets) => {
                let existing = address_records_of(sets);
                self.domains_to_change(Some(&existing))
            },
            None => self.domains_to_change(None),
        };
        let ghost stale = self.stale(Self::existing_of(listing));
        assert(changes.changes@.len() == changes@.0.len());
        assert(upsert_changes(stale, self.current_ip@).len() == stale.len());
        if changes.changes.len() == 0 {
            return None;
        }
        Some(ChangeResourceRecordSetsRequest {
            hosted_zone_id: self.config.hosted_zone_id.clone(),
            change_batch: changes,
        })
    }
}

} // verus!
