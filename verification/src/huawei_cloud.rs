//! The provider's record-set client: zone selection, domain normalization,
//! the per-run record cache, and the create-or-update reconciliation plan.
//! The HTTP transport around these decisions lives outside the library; every
//! decision itself is verified.

use vstd::prelude::*;
use crate::ipaddr::DDNSIP;
use crate::json::record_body_view;
use crate::json::record_body;
use crate::signer::Method;
use crate::text::{is_suffix_of, str_ends_with, str_eq};

verus! {

/// One record set as the provider reports it: an opaque id, a record type, a
/// fully-qualified name, the value list and a TTL.
#[derive(Clone)]
pub struct RecordSet {
    pub id: String,
    pub dns_type: String,
    pub name: String,
    pub records: Vec<String>,
    pub ttl: u64,
}

/// The mathematical content of a record set.
pub struct RecordView {
    pub id: Seq<char>,
    pub dns_type: Seq<char>,
    pub name: Seq<char>,
    pub records: Seq<Seq<char>>,
    pub ttl: nat,
}

impl View for RecordSet {
    type V = RecordView;

    open spec fn view(&self) -> RecordView {
        RecordView {
            id: self.id@,
            dns_type: self.dns_type@,
            name: self.name@,
            records: self.records.deep_view(),
            ttl: self.ttl as nat,
        }
    }
}

pub open spec fn records_view(s: Seq<RecordSet>) -> Seq<RecordView> {
    Seq::new(s.len(), |i: int| s[i]@)
}

/// A hosting zone: its name and its provider-assigned id.
pub struct Zone {
    pub name: String,
    pub id: String,
}

pub open spec fn zone_views(s: Seq<Zone>) -> Seq<(Seq<char>, Seq<char>)> {
    Seq::new(s.len(), |i: int| (s[i].name@, s[i].id@))
}

/// The id of the first zone whose name is a suffix of the domain.
pub open spec fn first_zone_id(zones: Seq<(Seq<char>, Seq<char>)>, domain: Seq<char>) -> Option<Seq<char>>
    decreases zones.len(),
{
    if zones.len() == 0 {
        Option::None
    } else if is_suffix_of(zones[0].0, domain) {
        Option::Some(zones[0].1)
    } else {
        first_zone_id(zones.drop_first(), domain)
    }
}

/// Selects the hosting zone for `domain`: the first zone whose name is a
/// suffix of the domain; none when no zone matches.
pub fn find_zone_id(zones: &Vec<Zone>, domain: &str) -> (r: Option<String>)
    ensures
        match r {
            Option::Some(id) => first_zone_id(zone_views(zones@), domain@) == Option::Some(id@),
            Option::None => first_zone_id(zone_views(zones@), domain@) is None,
        },
{
    let ghost zv = zone_views(zones@);
    let mut i: usize = 0;
    proof {
        assert(zv.skip(0) =~= zv);
    }
    while i < zones.len()
        invariant
            i <= zones.len(),
            zv == zone_views(zones@),
            zv.len() == zones.len(),
            first_zone_id(zv, domain@) == first_zone_id(zv.skip(i as int), domain@),
        decreases zones.len() - i,
    {
        if str_ends_with(domain, zones[i].name.as_str()) {
            return Option::Some(zones[i].id.clone());
        }
        proof {
            assert(zv.skip(i as int).drop_first() =~= zv.skip(i as int + 1));
        }
        i = i + 1;
    }
    Option::None
}

/// The domain with a trailing dot appended when it lacks one.
pub open spec fn norm_domain(d: Seq<char>) -> Seq<char> {
    if d.len() > 0 && d.last() == '.' {
        d
    } else {
        d.push('.')
    }
}

/// Normalizes a domain to its trailing-dot form.
pub fn normalize_domain(domain: &str) -> (r: String)
    ensures
        r@ == norm_domain(domain@),
{
    proof {
        reveal_strlit(".");
    }
    if str_ends_with(domain, ".") {
        proof {
            assert(domain@.subrange(domain@.len() - 1, domain@.len() as int)[0] == domain@.last());
        }
        domain.to_owned()
    } else {
        proof {
            if domain@.len() > 0 && domain@.last() == '.' {
                assert(domain@.subrange(domain@.len() - 1, domain@.len() as int) =~= "."@);
            }
            assert(domain@ + "."@ =~= domain@.push('.'));
        }
        domain.to_owned().concat(".")
    }
}

/// Domain normalization: a domain without the trailing dot and the same
/// domain with it normalize to the same name, so record lookups for either
/// form use the same cache key and match the same stored record sets.
pub proof fn lemma_domain_normalization(d: Seq<char>)
    requires
        !(d.len() > 0 && d.last() == '.'),
    ensures
        norm_domain(d) == norm_domain(d.push('.')),
{
    assert(d.push('.').last() == '.');
}

/// The record sets whose name is exactly `name`.
pub open spec fn matching_records(s: Seq<RecordView>, name: Seq<char>) -> Seq<RecordView>
    decreases s.len(),
{
    if s.len() == 0 {
        Seq::empty()
    } else {
        matching_records(s.drop_last(), name) + if s.last().name == name {
            seq![s.last()]
        } else {
            Seq::empty()
        }
    }
}

/// Keeps the record sets whose name equals the trailing-dot-normalized
/// domain: the provider's name filter may return a superset.
pub fn filter_records(sets: &Vec<RecordSet>, normalized_domain: &str) -> (r: Vec<RecordSet>)
    ensures
        records_view(r@) == matching_records(records_view(sets@), normalized_domain@),
{
    let ghost sv = records_view(sets@);
    let mut r: Vec<RecordSet> = Vec::new();
    let mut i: usize = 0;
    proof {
        assert(records_view(r@) =~= matching_records(sv.take(0), normalized_domain@));
    }
    while i < sets.len()
        invariant
            i <= sets.len(),
            sv == records_view(sets@),
            sv.len() == sets.len(),
            records_view(r@) == matching_records(sv.take(i as int), normalized_domain@),
        decreases sets.len() - i,
    {
        let ghost before = records_view(r@);
        if str_eq(sets[i].name.as_str(), normalized_domain) {
            let vals = sets[i].records.clone();
            proof {
                assert forall|k: int| 0 <= k < vals@.len() implies vals@[k] == sets[i as int].records@[k] by {
                    assert(vstd::pervasive::cloned::<String>(sets[i as int].records[k], vals[k]));
                }
                assert(vals@ =~= sets[i as int].records@);
            }
            let copy = RecordSet {
                id: sets[i].id.clone(),
                dns_type: sets[i].dns_type.clone(),
                name: sets[i].name.clone(),
                records: vals,
                ttl: sets[i].ttl,
            };
            proof {
                assert(copy@.records =~= sv[i as int].records);
                assert(copy@ == sv[i as int]);
            }
            r.push(copy);
            proof {
                assert(records_view(r@) =~= before.push(sv[i as int]));
            }
        }
        proof {
            assert(sv.take(i + 1).drop_last() =~= sv.take(i as int));
            assert(sv.take(i + 1).last() == sv[i as int]);
            assert(records_view(r@) =~= matching_records(sv.take(i + 1), normalized_domain@));
        }
        i = i + 1;
    }
    proof {
        assert(sv.take(sets.len() as int) =~= sv);
    }
    r
}

pub open spec fn key_view(k: (String, String, String)) -> (Seq<char>, Seq<char>, Seq<char>) {
    (k.0@, k.1@, k.2@)
}

/// The cache as a map: later entries shadow earlier ones (keys are in fact
/// stored at most once).
pub open spec fn entries_map(s: Seq<((String, String, String), Vec<RecordSet>)>) -> Map<
    (Seq<char>, Seq<char>, Seq<char>),
    Seq<RecordView>,
>
    decreases s.len(),
{
    if s.len() == 0 {
        Map::empty()
    } else {
        entries_map(s.drop_last()).insert(key_view(s.last().0), records_view(s.last().1@))
    }
}

/// The provider client: the API host, the resolved address source, and the
/// per-run cache of record lookups keyed by zone id, normalized domain and
/// record type.
pub struct HuaWeiCloudDDNS {
    pub api_host: String,
    pub ddns: DDNSIP,
    records: Vec<((String, String, String), Vec<RecordSet>)>,
}

impl HuaWeiCloudDDNS {
    /// The cache contents, as a map from (zone id, normalized domain, record
    /// type) to the record sets stored for that key.
    pub closed spec fn cache_map(&self) -> Map<(Seq<char>, Seq<char>, Seq<char>), Seq<RecordView>> {
        entries_map(self.records@)
    }

    /// The API host the client signs its requests for.
    pub closed spec fn api_host_view(&self) -> Seq<char> {
        self.api_host@
    }

    /// The resolved address source the client was built with.
    pub closed spec fn ddns_view(&self) -> DDNSIP {
        self.ddns
    }

    /// A fresh client for the provider's fixed regional endpoint, with an
    /// empty cache.
    pub fn new(ddns: DDNSIP) -> (r: Self)
        ensures
            r.api_host_view() == "dns.myhuaweicloud.com"@,
            r.ddns_view() == ddns,
            r.cache_map() == Map::<(Seq<char>, Seq<char>, Seq<char>), Seq<RecordView>>::empty(),
    {
        let r = HuaWeiCloudDDNS {
            api_host: "dns.myhuaweicloud.com".to_owned(),
            ddns,
            records: Vec::new(),
        };
        proof {
            assert(r.records@.len() == 0);
        }
        r
    }

    /// The cached record sets for (zone id, domain, record type), under the
    /// trailing-dot-normalized domain; none when the key was never stored.
    pub fn cached_records<'a>(&'a self, zone_id: &str, domain: &str, dns_type: &str) -> (r: Option<
        &'a Vec<RecordSet>,
    >)
        ensures
            ({
                let key = (zone_id@, norm_domain(domain@), dns_type@);
                match r {
                    Option::Some(v) => self.cache_map().contains_key(key)
                        && self.cache_map()[key] == records_view(v@),
                    Option::None => !self.cache_map().contains_key(key),
                }
            }),
    {
        let nd = normalize_domain(domain);
        let ghost key = (zone_id@, norm_domain(domain@), dns_type@);
        let mut i: usize = self.records.len();
        proof {
            assert(self.records@.take(i as int) =~= self.records@);
        }
        while i > 0
            invariant
                i <= self.records.len(),
                key == (zone_id@, norm_domain(domain@), dns_type@),
                nd@ == norm_domain(domain@),
                self.cache_map().contains_key(key) == entries_map(self.records@.take(i as int)).contains_key(key),
                self.cache_map().contains_key(key) ==> self.cache_map()[key] == entries_map(
                    self.records@.take(i as int),
                )[key],
            decreases i,
        {
            i = i - 1;
            let entry = &self.records[i];
            proof {
                assert(self.records@.take(i + 1).drop_last() =~= self.records@.take(i as int));
                assert(self.records@.take(i + 1).last() == self.records@[i as int]);
            }
            if str_eq(entry.0.0.as_str(), zone_id) && str_eq(entry.0.1.as_str(), nd.as_str())
                && str_eq(entry.0.2.as_str(), dns_type) {
                proof {
                    assert(key_view(self.records@[i as int].0) == key);
                }
                return Option::Some(&entry.1);
            }
            proof {
                assert(key_view(self.records@[i as int].0) != key);
            }
        }
        proof {
            assert(self.records@.take(0) =~= Seq::<((String, String, String), Vec<RecordSet>)>::empty());
        }
        Option::None
    }

    /// Stores the record sets fetched for (zone id, domain, record type)
    /// under the trailing-dot-normalized domain, shadowing any earlier entry.
    pub fn store_records(&mut self, zone_id: &str, domain: &str, dns_type: &str, sets: Vec<RecordSet>)
        ensures
            final(self).cache_map() == old(self).cache_map().insert(
                (zone_id@, norm_domain(domain@), dns_type@),
                records_view(sets@),
            ),
            final(self).api_host_view() == old(self).api_host_view(),
            final(self).ddns_view() == old(self).ddns_view(),
    {
        let nd = normalize_domain(domain);
        let ghost sv = records_view(sets@);
        self.records.push(((zone_id.to_owned(), nd, dns_type.to_owned()), sets));
        proof {
            assert(self.records@.drop_last() =~= old(self).records@);
        }
    }
}

/// One HTTP call the reconciliation plan asks for.
pub struct DnsAction {
    pub method: Method,
    pub path: String,
    pub body: String,
}

/// The mathematical content of an action.
pub struct ActionView {
    pub method: Method,
    pub path: Seq<char>,
    pub body: Seq<char>,
}

impl View for DnsAction {
    type V = ActionView;

    open spec fn view(&self) -> ActionView {
        ActionView { method: self.method, path: self.path@, body: self.body@ }
    }
}

pub open spec fn actions_view(s: Seq<DnsAction>) -> Seq<ActionView> {
    Seq::new(s.len(), |i: int| s[i]@)
}

/// The record-set collection path of a zone.
pub open spec fn recordsets_path_view(zone: Seq<char>) -> Seq<char> {
    "/v2/zones/"@ + zone + "/recordsets"@
}

/// The path of one record set inside a zone.
pub open spec fn record_path_view(zone: Seq<char>, record_id: Seq<char>) -> Seq<char> {
    recordsets_path_view(zone) + seq!['/'] + record_id
}

/// Builds the record-set collection path of a zone.
pub fn recordsets_path(zone_id: &str) -> (r: String)
    ensures
        r@ == recordsets_path_view(zone_id@),
{
    let mut r = "/v2/zones/".to_owned();
    r.append(zone_id);
    r.append("/recordsets");
    r
}

/// A record set is stale when its value list is not exactly the one-element
/// list holding the current address.
pub open spec fn stale(rv: RecordView, addr: Seq<char>) -> bool {
    rv.records != seq![addr]
}

/// The update actions for the stale record sets, one per stale record, in
/// record order.
pub open spec fn update_actions_view(
    records: Seq<RecordView>,
    zone: Seq<char>,
    domain: Seq<char>,
    rtype: Seq<char>,
    ttl: nat,
    addr: Seq<char>,
) -> Seq<ActionView>
    decreases records.len(),
{
    if records.len() == 0 {
        Seq::empty()
    } else {
        update_actions_view(records.drop_last(), zone, domain, rtype, ttl, addr)
            + if stale(records.last(), addr) {
            seq![
                ActionView {
                    method: Method::PUT,
                    path: record_path_view(zone, records.last().id),
                    body: record_body_view(domain, rtype, ttl, addr),
                },
            ]
        } else {
            Seq::empty()
        }
    }
}

/// The reconciliation plan: with no matching record sets, one create; with
/// matching record sets, one update per stale record set and nothing for the
/// ones already holding exactly the current address.
pub open spec fn plan_view(
    records: Seq<RecordView>,
    zone: Seq<char>,
    domain: Seq<char>,
    rtype: Seq<char>,
    ttl: nat,
    addr: Seq<char>,
) -> Seq<ActionView> {
    if records.len() == 0 {
        seq![
            ActionView {
                method: Method::POST,
                path: recordsets_path_view(zone),
                body: record_body_view(domain, rtype, ttl, addr),
            },
        ]
    } else {
        update_actions_view(records, zone, domain, rtype, ttl, addr)
    }
}

fn is_single_addr(values: &Vec<String>, addr: &str) -> (r: bool)
    ensures
        r == (values.deep_view() == seq![addr@]),
{
    if values.len() != 1 {
        proof {
            assert(values.deep_view().len() == values@.len());
        }
        return false;
    }
    let eq = str_eq(values[0].as_str(), addr);
    proof {
        if eq {
            assert(values.deep_view() =~= seq![addr@]);
        } else {
            assert(values.deep_view()[0] != seq![addr@][0]);
        }
    }
    eq
}

/// Computes the reconciliation plan for the fetched record sets against the
/// current address.
pub fn plan_actions(
    records: &Vec<RecordSet>,
    zone_id: &str,
    domain: &str,
    dns_type: &str,
    ttl: u64,
    addr: &str,
) -> (r: Vec<DnsAction>)
    ensures
        actions_view(r@) == plan_view(records_view(records@), zone_id@, domain@, dns_type@, ttl as nat, addr@),
{
    let ghost rv = records_view(records@);
    if records.len() == 0 {
        let mut r: Vec<DnsAction> = Vec::new();
        r.push(DnsAction {
            method: Method::POST,
            path: recordsets_path(zone_id),
            body: record_body(domain, dns_type, ttl, addr),
        });
        proof {
            assert(actions_view(r@) =~= plan_view(rv, zone_id@, domain@, dns_type@, ttl as nat, addr@));
        }
        return r;
    }
    let mut r: Vec<DnsAction> = Vec::new();
    let mut i: usize = 0;
    proof {
        assert(actions_view(r@) =~= update_actions_view(rv.take(0), zone_id@, domain@, dns_type@, ttl as nat, addr@));
    }
    while i < records.len()
        invariant
            i <= records.len(),
            rv == records_view(records@),
            rv.len() == records.len(),
            actions_view(r@) == update_actions_view(
                rv.take(i as int),
                zone_id@,
                domain@,
                dns_type@,
                ttl as nat,
                addr@,
            ),
        decreases records.len() - i,
    {
        let ghost before = actions_view(r@);
        if !is_single_addr(&records[i].records, addr) {
            let mut path = recordsets_path(zone_id);
            path.append("/");
            path.append(records[i].id.as_str());
            let action = DnsAction {
                method: Method::PUT,
                path,
                body: record_body(domain, dns_type, ttl, addr),
            };
            proof {
                reveal_strlit("/");
                assert("/"@ =~= seq!['/']);
                assert(action@.path =~= record_path_view(zone_id@, rv[i as int].id));
            }
            r.push(action);
            proof {
                assert(actions_view(r@) =~= before.push(action@));
            }
        }
        proof {
            assert(rv.take(i + 1).drop_last() =~= rv.take(i as int));
            assert(rv.take(i + 1).last() == rv[i as int]);
            assert(actions_view(r@) =~= update_actions_view(
                rv.take(i + 1),
                zone_id@,
                domain@,
                dns_type@,
                ttl as nat,
                addr@,
            ));
        }
        i = i + 1;
    }
    proof {
        assert(rv.take(records.len() as int) =~= rv);
    }
    r
}

/// No-op idempotence: when every matching record set already holds exactly
/// the current address, the plan is empty — no update call is issued.
pub proof fn lemma_noop_idempotent(
    records: Seq<RecordView>,
    zone: Seq<char>,
    domain: Seq<char>,
    rtype: Seq<char>,
    ttl: nat,
    addr: Seq<char>,
)
    requires
        records.len() > 0,
        forall|i: int| 0 <= i < records.len() ==> !stale(#[trigger] records[i], addr),
    ensures
        plan_view(records, zone, domain, rtype, ttl, addr) == Seq::<ActionView>::empty(),
    decreases records.len(),
{
    if records.len() == 1 {
        assert(update_actions_view(records.drop_last(), zone, domain, rtype, ttl, addr)
            =~= Seq::<ActionView>::empty());
        assert(plan_view(records, zone, domain, rtype, ttl, addr) =~= Seq::<ActionView>::empty());
    } else {
        let rest = records.drop_last();
        assert(forall|i: int| 0 <= i < rest.len() ==> !stale(#[trigger] rest[i], addr));
        lemma_noop_idempotent(rest, zone, domain, rtype, ttl, addr);
        assert(plan_view(records, zone, domain, rtype, ttl, addr) =~= Seq::<ActionView>::empty());
    }
}

/// The number of stale record sets.
pub open spec fn stale_count(records: Seq<RecordView>, addr: Seq<char>) -> nat
    decreases records.len(),
{
    if records.len() == 0 {
        0
    } else {
        stale_count(records.drop_last(), addr) + if stale(records.last(), addr) {
            1nat
        } else {
            0nat
        }
    }
}

proof fn lemma_update_actions_shape(
    records: Seq<RecordView>,
    zone: Seq<char>,
    domain: Seq<char>,
    rtype: Seq<char>,
    ttl: nat,
    addr: Seq<char>,
)
    ensures
        update_actions_view(records, zone, domain, rtype, ttl, addr).len() == stale_count(records, addr),
        forall|j: int|
            0 <= j < update_actions_view(records, zone, domain, rtype, ttl, addr).len()
                ==> #[trigger] update_actions_view(records, zone, domain, rtype, ttl, addr)[j].method
                is PUT,
    decreases records.len(),
{
    if records.len() > 0 {
        lemma_update_actions_shape(records.drop_last(), zone, domain, rtype, ttl, addr);
    }
}

/// Create-vs-update branching: with zero matching record sets the plan is
/// exactly one create call; with one or more, the plan is one update call per
/// stale record set, and nothing else.
pub proof fn lemma_create_vs_update(
    records: Seq<RecordView>,
    zone: Seq<char>,
    domain: Seq<char>,
    rtype: Seq<char>,
    ttl: nat,
    addr: Seq<char>,
)
    ensures
        records.len() == 0 ==> {
            let plan = plan_view(records, zone, domain, rtype, ttl, addr);
            plan.len() == 1 && plan[0].method is POST
        },
        records.len() > 0 ==> {
            let plan = plan_view(records, zone, domain, rtype, ttl, addr);
            plan.len() == stale_count(records, addr) && (forall|j: int|
                0 <= j < plan.len() ==> #[trigger] plan[j].method is PUT)
        },
{
    if records.len() > 0 {
        lemma_update_actions_shape(records, zone, domain, rtype, ttl, addr);
    }
}

/// With every matching record set stale, the plan is exactly one update per
/// record set, in record order: the update of record `j` goes to record `j`'s
/// own path, with the body holding the current address.
pub proof fn lemma_update_per_record(
    records: Seq<RecordView>,
    zone: Seq<char>,
    domain: Seq<char>,
    rtype: Seq<char>,
    ttl: nat,
    addr: Seq<char>,
)
    requires
        records.len() > 0,
        forall|i: int| 0 <= i < records.len() ==> stale(#[trigger] records[i], addr),
    ensures
        ({
            let plan = plan_view(records, zone, domain, rtype, ttl, addr);
            plan.len() == records.len() && (forall|j: int|
                0 <= j < records.len() ==> #[trigger] plan[j] == ActionView {
                    method: Method::PUT,
                    path: record_path_view(zone, records[j].id),
                    body: record_body_view(domain, rtype, ttl, addr),
                })
        }),
    decreases records.len(),
{
    let plan = plan_view(records, zone, domain, rtype, ttl, addr);
    let last_action = ActionView {
        method: Method::PUT,
        path: record_path_view(zone, records.last().id),
        body: record_body_view(domain, rtype, ttl, addr),
    };
    if records.len() == 1 {
        assert(update_actions_view(records.drop_last(), zone, domain, rtype, ttl, addr)
            =~= Seq::<ActionView>::empty());
        assert(plan =~= seq![last_action]);
    } else {
        let rest = records.drop_last();
        assert(forall|i: int| 0 <= i < rest.len() ==> stale(#[trigger] rest[i], addr));
        lemma_update_per_record(rest, zone, domain, rtype, ttl, addr);
        let rest_plan = plan_view(rest, zone, domain, rtype, ttl, addr);
        assert(plan =~= rest_plan + seq![last_action]);
        assert forall|j: int| 0 <= j < records.len() implies #[trigger] plan[j] == ActionView {
            method: Method::PUT,
            path: record_path_view(zone, records[j].id),
            body: record_body_view(domain, rtype, ttl, addr),
        } by {
            if j < rest.len() {
                assert(plan[j] == rest_plan[j]);
                assert(records[j] == rest[j]);
            } else {
                assert(plan[j] == last_action);
            }
        }
    }
}

} // verus!

