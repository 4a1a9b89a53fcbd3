//! The per-zone metrics.
//!
//! Every zone has five families of counters, and so has the "unknown zone",
//! which stands for the queries that lie in no zone. The counters are those
//! of the `prometheus` crate, held in one of its registries; the zones'
//! counters are kept in a concurrent hash map of the `chashmap` crate. What
//! this module verifies is which families exist when, under which names,
//! which counter moves for which update and by how much, and that no other
//! counter moves. What a scrape shows is stated over the counters.

use crate::message::IpVersion;
use crate::message::Protocol;
use crate::message::ResponseCode;
use crate::name::DomainName;
use crate::name::NameView;
use crate::record::class_text;
use crate::record::spec_type_text;
use crate::record::type_code;
use crate::record::DnsClass;
use crate::record::RecordType;
use vstd::prelude::*;
use vstd::string::StringExecFns;

verus! {

/// One step of one counter. `zone` is the zone whose counters are meant, or
/// `None` for the counters of queries outside every zone.
pub enum MetricUpdate {
    /// The transport of a request.
    ConnectionType { zone: Option<DomainName>, ip_version: IpVersion, protocol: Protocol },
    /// The record type asked for.
    RecordType { zone: Option<DomainName>, record_type: RecordType },
    /// The class asked for.
    QueryClass { zone: Option<DomainName>, class: DnsClass },
    /// The country a request came from.
    Country { zone: Option<DomainName>, country: String },
    /// The response code sent.
    ResponseCode { zone: Option<DomainName>, code: ResponseCode },
}

/// The mathematical value of a [`MetricUpdate`].
pub enum UpdateView {
    ConnectionType { zone: Option<NameView>, ip_version: IpVersion, protocol: Protocol },
    RecordType { zone: Option<NameView>, record_type: RecordType },
    QueryClass { zone: Option<NameView>, class: DnsClass },
    Country { zone: Option<NameView>, country: Seq<char> },
    ResponseCode { zone: Option<NameView>, code: ResponseCode },
}

/// The value of a zone that may be absent.
pub open spec fn zone_view(zone: Option<DomainName>) -> Option<NameView> {
    match zone {
        Some(name) => Some(name@),
        None => None,
    }
}

impl View for MetricUpdate {
    type V = UpdateView;

    open spec fn view(&self) -> UpdateView {
        match *self {
            MetricUpdate::ConnectionType { zone, ip_version, protocol } => UpdateView::ConnectionType {
                zone: zone_view(zone),
                ip_version,
                protocol,
            },
            MetricUpdate::RecordType { zone, record_type } => UpdateView::RecordType {
                zone: zone_view(zone),
                record_type,
            },
            MetricUpdate::QueryClass { zone, class } => UpdateView::QueryClass { zone: zone_view(zone), class },
            MetricUpdate::Country { zone, country } => UpdateView::Country {
                zone: zone_view(zone),
                country: country@,
            },
            MetricUpdate::ResponseCode { zone, code } => UpdateView::ResponseCode { zone: zone_view(zone), code },
        }
    }
}

/// The zone whose counters an update means.
pub open spec fn update_zone(update: UpdateView) -> Option<NameView> {
    match update {
        UpdateView::ConnectionType { zone, .. } => zone,
        UpdateView::RecordType { zone, .. } => zone,
        UpdateView::QueryClass { zone, .. } => zone,
        UpdateView::Country { zone, .. } => zone,
        UpdateView::ResponseCode { zone, .. } => zone,
    }
}

/// The values of the updates held in a vector, in their order.
pub open spec fn updates_view(updates: Vec<MetricUpdate>) -> Seq<UpdateView> {
    Seq::new(updates.len() as nat, |i: int| updates[i]@)
}

/// How often `update` occurs among the first `n` of `updates`.
pub open spec fn count_update(updates: Seq<UpdateView>, update: UpdateView, n: int) -> int
    decreases n,
{
    if n <= 0 {
        0
    } else {
        count_update(updates, update, n - 1) + if updates[n - 1] == update {
            1int
        } else {
            0int
        }
    }
}


/// The label that stands for the zone of the queries that lie in no zone.
pub open spec fn unknown_label() -> Seq<char> {
    seq!['U', 'N', 'K', 'N', 'O', 'W', 'N']
}

/// The five families of counters that every zone has.
#[derive(Debug, Clone, Copy, PartialEq, Eq, Hash, Structural)]
pub enum Family {
    /// The response codes sent, by `code`.
    ResponseCode,
    /// The record types asked for, by `record`.
    QueryType,
    /// The classes asked for, by `class`.
    QueryClass,
    /// The transports of the requests, by `ip_version` and `protocol`.
    ConnectionTypes,
    /// The countries the requests came from, by `country`.
    CountryQueries,
}

/// The place of a family among the five.
pub open spec fn family_index(family: Family) -> int {
    match family {
        Family::ResponseCode => 0,
        Family::QueryType => 1,
        Family::QueryClass => 2,
        Family::ConnectionTypes => 3,
        Family::CountryQueries => 4,
    }
}

/// The family at a place among the five.
pub open spec fn family_at(index: int) -> Family {
    if index == 0 {
        Family::ResponseCode
    } else if index == 1 {
        Family::QueryType
    } else if index == 2 {
        Family::QueryClass
    } else if index == 3 {
        Family::ConnectionTypes
    } else {
        Family::CountryQueries
    }
}

/// The name of the metric of a family.
pub open spec fn family_name(family: Family) -> Seq<char> {
    match family {
        Family::ResponseCode => "response_code"@,
        Family::QueryType => "query_type"@,
        Family::QueryClass => "query_class"@,
        Family::ConnectionTypes => "connection_types"@,
        Family::CountryQueries => "country_queries"@,
    }
}

/// The number of labels by which the counters of a family are told apart.
pub open spec fn family_arity(family: Family) -> nat {
    match family {
        Family::ConnectionTypes => 2,
        _ => 1,
    }
}

/// The names of the labels by which the counters of a family are told
/// apart.
pub open spec fn family_labels(family: Family) -> Seq<Seq<char>> {
    match family {
        Family::ResponseCode => seq!["code"@],
        Family::QueryType => seq!["record"@],
        Family::QueryClass => seq!["class"@],
        Family::ConnectionTypes => seq!["ip_version"@, "protocol"@],
        Family::CountryQueries => seq!["country"@],
    }
}

/// What the metric of a family counts, in words.
pub open spec fn family_help(family: Family) -> Seq<char> {
    match family {
        Family::ResponseCode => "response codes returned by queries to zones in the given authority."@,
        Family::QueryType => "the record type requested by the query."@,
        Family::QueryClass => "The class in the query"@,
        Family::ConnectionTypes => "The type of connection used for the query to the zone"@,
        Family::CountryQueries => "The assumed country a query originates from"@,
    }
}

/// The label of a response code.
pub open spec fn response_code_text(code: ResponseCode) -> Seq<char> {
    match code {
        ResponseCode::NoError => "NOERROR"@,
        ResponseCode::FormErr => "FORMERR"@,
        ResponseCode::ServFail => "SERVFAIL"@,
        ResponseCode::NXDomain => "NXDOMAIN"@,
        ResponseCode::NotImp => "NOTIMP"@,
        ResponseCode::Refused => "REFUSED"@,
        ResponseCode::Other(_) => "OTHER"@,
    }
}

/// The label of a version of the Internet Protocol.
pub open spec fn ip_version_text(version: IpVersion) -> Seq<char> {
    match version {
        IpVersion::V4 => "IPv4"@,
        IpVersion::V6 => "IPv6"@,
    }
}

/// The label of a transport.
pub open spec fn protocol_text(protocol: Protocol) -> Seq<char> {
    match protocol {
        Protocol::Udp => "UDP"@,
        Protocol::Tcp => "TCP"@,
        Protocol::Tls => "TLS"@,
        Protocol::Dtls => "DTLS"@,
        Protocol::Https => "HTTPS"@,
        Protocol::Quic => "QUIC"@,
    }
}

/// The family whose counter an update moves.
pub open spec fn update_family(update: UpdateView) -> Family {
    match update {
        UpdateView::ConnectionType { .. } => Family::ConnectionTypes,
        UpdateView::RecordType { .. } => Family::QueryType,
        UpdateView::QueryClass { .. } => Family::QueryClass,
        UpdateView::Country { .. } => Family::CountryQueries,
        UpdateView::ResponseCode { .. } => Family::ResponseCode,
    }
}

/// The label values of the counter that an update moves.
pub open spec fn update_labels(update: UpdateView) -> Seq<Seq<char>> {
    match update {
        UpdateView::ConnectionType { ip_version, protocol, .. } => seq![
            ip_version_text(ip_version),
            protocol_text(protocol),
        ],
        UpdateView::RecordType { record_type, .. } => seq![spec_type_text(type_code(record_type))],
        UpdateView::QueryClass { class, .. } => seq![class_text(class)],
        UpdateView::Country { country, .. } => seq![country],
        UpdateView::ResponseCode { code, .. } => seq![response_code_text(code)],
    }
}

/// The value of a counter after one more step. A counter that is full
/// starts again at 0.
pub open spec fn next_count(count: u64) -> u64 {
    if count == u64::MAX {
        0
    } else {
        (count + 1) as u64
    }
}

/// The number under which a family keeps the counter for given label
/// values: `MetricVec` makes it of the values, a hash of their bytes one
/// after the other.
pub uninterp spec fn spec_label_hash(values: Seq<Seq<char>>) -> u64;

/// Whether a family keeps one counter for both label values.
pub open spec fn same_counter(first: Seq<Seq<char>>, second: Seq<Seq<char>>) -> bool {
    first.len() == second.len() && spec_label_hash(first) == spec_label_hash(second)
}

/// Whether a family has a counter for the given label values. The counters
/// of a family are held each under the label values that it was made for.
pub open spec fn has_counter(series: Map<Seq<Seq<char>>, u64>, labels: Seq<Seq<char>>) -> bool {
    exists|held: Seq<Seq<char>>| #[trigger] series.contains_key(held) && same_counter(held, labels)
}

/// The label values under which a family holds the counter for the given
/// label values.
pub open spec fn counter_key(series: Map<Seq<Seq<char>>, u64>, labels: Seq<Seq<char>>) -> Seq<Seq<char>> {
    choose|held: Seq<Seq<char>>| #[trigger] series.contains_key(held) && same_counter(held, labels)
}

/// The value of the counter for the given label values, which is 0 where
/// the family has no such counter.
pub open spec fn count_at(series: Map<Seq<Seq<char>>, u64>, labels: Seq<Seq<char>>) -> u64 {
    if has_counter(series, labels) {
        series[counter_key(series, labels)]
    } else {
        0
    }
}

/// The counters of a family once the counter for the given label values was
/// asked for: a counter that is new stands at 0.
pub open spec fn touched_series(series: Map<Seq<Seq<char>>, u64>, labels: Seq<Seq<char>>) -> Map<Seq<Seq<char>>, u64> {
    if has_counter(series, labels) {
        series
    } else {
        series.insert(labels, 0)
    }
}

/// The counters of a family once the counter for the given label values has
/// moved by one.
pub open spec fn moved_series(series: Map<Seq<Seq<char>>, u64>, labels: Seq<Seq<char>>) -> Map<Seq<Seq<char>>, u64> {
    if has_counter(series, labels) {
        series.insert(counter_key(series, labels), next_count(series[counter_key(series, labels)]))
    } else {
        series.insert(labels, 1)
    }
}

/// Whether a family holds one counter at most for label values that it
/// cannot tell apart.
pub open spec fn single(series: Map<Seq<Seq<char>>, u64>) -> bool {
    forall|first: Seq<Seq<char>>, second: Seq<Seq<char>>|
        #[trigger] series.contains_key(first) && #[trigger] series.contains_key(second) && same_counter(first, second)
            ==> first == second
}

/// Moving a counter moves the one counter for the given label values by
/// one, and no other.
pub proof fn lemma_moved_series(series: Map<Seq<Seq<char>>, u64>, labels: Seq<Seq<char>>)
    requires
        single(series),
    ensures
        single(moved_series(series, labels)),
        has_counter(moved_series(series, labels), labels),
        count_at(moved_series(series, labels), labels) == next_count(count_at(series, labels)),
        forall|other: Seq<Seq<char>>|
            !same_counter(other, labels) ==> #[trigger] has_counter(moved_series(series, labels), other)
                == has_counter(series, other),
        forall|other: Seq<Seq<char>>|
            !same_counter(other, labels) ==> #[trigger] count_at(moved_series(series, labels), other) == count_at(
                series,
                other,
            ),
{
    let moved = moved_series(series, labels);
    let key = if has_counter(series, labels) {
        counter_key(series, labels)
    } else {
        labels
    };
    assert(moved.contains_key(key) && same_counter(key, labels));
    let after = counter_key(moved, labels);
    if has_counter(series, labels) {
        assert(series.contains_key(after) && same_counter(after, key));
    } else if after != labels {
        assert(series.contains_key(after));
    }
    assert forall|other: Seq<Seq<char>>| !same_counter(other, labels) implies #[trigger] has_counter(moved, other)
        == has_counter(series, other) by {
        lemma_other_counter(series, moved, other, key);
    }
    assert forall|other: Seq<Seq<char>>| !same_counter(other, labels) implies #[trigger] count_at(moved, other)
        == count_at(series, other) by {
        lemma_other_counter(series, moved, other, key);
    }
    assert forall|first: Seq<Seq<char>>, second: Seq<Seq<char>>|
        #[trigger] moved.contains_key(first) && #[trigger] moved.contains_key(second) && same_counter(
            first,
            second,
        ) implies first == second by {
        if first != key && second != key {
            assert(series.contains_key(first) && series.contains_key(second));
        } else if first != key {
            assert(series.contains_key(first));
        } else if second != key {
            assert(series.contains_key(second));
        }
    }
}

proof fn lemma_other_counter(
    series: Map<Seq<Seq<char>>, u64>,
    moved: Map<Seq<Seq<char>>, u64>,
    other: Seq<Seq<char>>,
    key: Seq<Seq<char>>,
)
    requires
        single(series),
        !same_counter(other, key),
        forall|held: Seq<Seq<char>>| held != key ==> (moved.contains_key(held) <==> series.contains_key(held)),
        forall|held: Seq<Seq<char>>| held != key && series.contains_key(held) ==> moved[held] == series[held],
    ensures
        has_counter(moved, other) == has_counter(series, other),
        count_at(moved, other) == count_at(series, other),
{
    if has_counter(series, other) {
        let held = counter_key(series, other);
        assert(held != key);
        assert(moved.contains_key(held));
        let after = counter_key(moved, other);
        assert(after != key);
        assert(series.contains_key(after));
        assert(same_counter(after, held));
    }
    if has_counter(moved, other) {
        let after = counter_key(moved, other);
        assert(after != key);
        assert(series.contains_key(after));
    }
}

/// The texts held in a vector, in their order.
pub open spec fn texts_view(texts: Vec<String>) -> Seq<Seq<char>> {
    Seq::new(texts.len() as nat, |i: int| texts[i]@)
}

/// The registry of the `prometheus` crate.
#[verifier::external_type_specification]
#[verifier::external_body]
pub struct ExRegistry(prometheus::Registry);

/// The error type of the `prometheus` crate.
#[verifier::external_type_specification]
#[verifier::external_body]
pub struct ExPrometheusError(prometheus::Error);

/// The concurrent hash map of the `chashmap` crate.
#[verifier::external_type_specification]
#[verifier::external_body]
#[verifier::reject_recursive_types(K)]
#[verifier::reject_recursive_types(V)]
pub struct ExCHashMap<K, V>(chashmap::CHashMap<K, V>);

/// A family of counters: an `IntCounterVec` of the `prometheus` crate.
#[verifier::external_body]
pub struct CounterVec {
    inner: prometheus::IntCounterVec,
}

/// The collectors that a registry holds, each by the name of its metric and
/// the value of its constant label.
pub uninterp spec fn registry_ids(registry: prometheus::Registry) -> Set<(Seq<char>, Seq<char>)>;

/// What a family of counters is made with: the name of its metric, what
/// the metric counts in words, the name and the value of its constant
/// label, and the names of its variable labels in their order.
pub struct FamilyOpts {
    pub name: Seq<char>,
    pub help: Seq<char>,
    pub const_label: Seq<char>,
    pub const_value: Seq<char>,
    pub labels: Seq<Seq<char>>,
}

/// What a family of counters was made with.
pub uninterp spec fn counter_opts(vec: CounterVec) -> FamilyOpts;

/// Whether a character may stand in a name: a letter of ASCII or `_`; in
/// the name of a metric `:` too; behind the first character a digit too.
pub open spec fn name_char(c: char, first: bool, metric: bool) -> bool {
    ||| 'a' <= c <= 'z'
    ||| 'A' <= c <= 'Z'
    ||| c == '_'
    ||| metric && c == ':'
    ||| !first && '0' <= c <= '9'
}

/// Whether a text is well formed as the name of a metric, or as the name of
/// a label.
pub open spec fn valid_name(name: Seq<char>, metric: bool) -> bool {
    &&& name.len() > 0
    &&& forall|i: int| 0 <= i < name.len() ==> name_char(#[trigger] name[i], i == 0, metric)
}

/// Whether a family of counters can be made with `opts`: the metric's name
/// and the labels' names are well formed, the words on what the metric
/// counts are not empty, and no two variable labels have one name.
pub open spec fn family_made(opts: FamilyOpts) -> bool {
    &&& opts.help.len() > 0
    &&& valid_name(opts.name, true)
    &&& valid_name(opts.const_label, false)
    &&& forall|i: int| 0 <= i < opts.labels.len() ==> valid_name(#[trigger] opts.labels[i], false)
    &&& forall|i: int, j: int|
        0 <= i < j < opts.labels.len() ==> #[trigger] opts.labels[i] != #[trigger] opts.labels[j]
}

/// The number by which a registry tells families apart. `Desc::new` makes
/// it when the family is made: a hash of the metric's name and of the value
/// of the constant label.
pub uninterp spec fn spec_desc_id(name: Seq<char>, const_value: Seq<char>) -> u64;

/// The number that stands for the shape of a family. `Desc::new` makes it
/// when the family is made: a hash of the words on what the metric counts
/// and of the names of the labels.
pub uninterp spec fn spec_dim_hash(help: Seq<char>, const_label: Seq<char>, labels: Seq<Seq<char>>) -> u64;

/// The numbers that are taken in a registry: those of the descriptors and
/// of the collectors that it holds. `Registry::register` refuses a family
/// whose number is taken.
pub uninterp spec fn registry_taken(registry: prometheus::Registry) -> Set<u64>;

/// The shapes that a registry remembers, by the metric's name. They stay
/// when a family leaves. `Registry::register` refuses a family whose name
/// the registry remembers with another shape.
pub uninterp spec fn registry_dims(registry: prometheus::Registry) -> Map<Seq<char>, u64>;

/// Whether the second of two sets of remembered shapes holds all that the
/// first holds.
pub open spec fn kept_in(first: Map<Seq<char>, u64>, second: Map<Seq<char>, u64>) -> bool {
    forall|name: Seq<char>| #[trigger] first.contains_key(name) ==> second.contains_key(name) && second[name] == first[name]
}

/// The name of the metric of a family of counters and the value of its
/// constant label, as it was made with.
pub open spec fn counter_id(vec: CounterVec) -> (Seq<char>, Seq<char>) {
    (counter_opts(vec).name, counter_opts(vec).const_value)
}

/// The names of the variable labels that a family of counters was made
/// with, in their order.
pub open spec fn counter_labels(vec: CounterVec) -> Seq<Seq<char>> {
    counter_opts(vec).labels
}

/// The counters that a family holds, each under the label values that it
/// was made for, with its value.
pub uninterp spec fn counter_series(vec: CounterVec) -> Map<Seq<Seq<char>>, u64>;

/// What identifies the five families of a zone: of each, the name of its
/// metric with the value of its constant label, and the number of its labels.
pub struct ZoneIds {
    pub ids: Seq<(Seq<char>, Seq<char>)>,
    pub labels: Seq<Seq<Seq<char>>>,
}

/// The counters of a zone: what identifies its five families, and what each
/// of them has counted.
pub struct ZoneCounters {
    pub ids: ZoneIds,
    pub series: Seq<Map<Seq<Seq<char>>, u64>>,
}

/// The counters of one zone: its five families, in the order of `Family`.
pub struct ZoneMetrics {
    vecs: Vec<CounterVec>,
}

/// The zones that a table holds counters for, each with its counters.
pub uninterp spec fn table_counters(table: chashmap::CHashMap<String, ZoneMetrics>) -> Map<Seq<char>, ZoneCounters>;

/// What identifies the families of a zone's counters.
pub closed spec fn zone_ids(metrics: ZoneMetrics) -> ZoneIds {
    ZoneIds {
        ids: Seq::new(metrics.vecs.len() as nat, |i: int| counter_id(metrics.vecs[i])),
        labels: Seq::new(metrics.vecs.len() as nat, |i: int| counter_labels(metrics.vecs[i])),
    }
}

/// The counters of a zone.
pub closed spec fn zone_counters(metrics: ZoneMetrics) -> ZoneCounters {
    ZoneCounters {
        ids: zone_ids(metrics),
        series: Seq::new(metrics.vecs.len() as nat, |i: int| counter_series(metrics.vecs[i])),
    }
}

/// What identifies the families of the zone with the given label.
pub open spec fn expected_ids(label: Seq<char>) -> ZoneIds {
    ZoneIds {
        ids: Seq::new(5, |i: int| (family_name(family_at(i)), label)),
        labels: Seq::new(5, |i: int| family_labels(family_at(i))),
    }
}

/// The collectors of the zone with the given label.
pub open spec fn family_ids(label: Seq<char>) -> Set<(Seq<char>, Seq<char>)> {
    Set::new(|id: (Seq<char>, Seq<char>)| id.1 == label && exists|i: int| 0 <= i < 5 && id.0 == family_name(
        #[trigger] family_at(i),
    ))
}

/// Why the metrics could not be set up.
#[derive(Debug, Clone, Copy, PartialEq, Eq, Structural)]
pub enum MetricsError {
    /// A family of counters could not be made.
    Create,
    /// The registry refused a family, as it does one that it holds already.
    Register,
}

/// Makes a registry with `Registry::new_custom`: every metric name gets the
/// prefix, every metric the one constant label. The call fails on an empty
/// prefix and on nothing else, so that it does not fail here. The new
/// registry holds no collector, no number is taken in it, and it remembers
/// no shape.
#[verifier::external_body]
fn new_registry(prefix: &str, label: &str, value: String) -> (out: prometheus::Registry)
    requires
        prefix@.len() > 0,
    ensures
        registry_ids(out).is_empty(),
        registry_taken(out).is_empty(),
        registry_dims(out).dom().is_empty(),
{
    let mut labels = std::collections::HashMap::new();
    labels.insert(label.to_string(), value);
    prometheus::Registry::new_custom(Some(prefix.to_string()), Some(labels)).unwrap_or_default()
}

/// Makes a family of counters with `IntCounterVec::new`, from options made
/// by `Opts::new` and `Opts::const_label`. The call fails where the words
/// on the metric are empty, where the metric's name or a label's name is
/// not well formed, and where two variable labels have one name; else it
/// makes the family. A new family holds no counter.
#[verifier::external_body]
fn new_counter_vec(name: &str, help: &str, const_label: &str, const_value: &str, label_names: &Vec<String>) -> (out:
    Result<CounterVec, prometheus::Error>)
    ensures
        out is Ok <==> family_made(
            FamilyOpts {
                name: name@,
                help: help@,
                const_label: const_label@,
                const_value: const_value@,
                labels: texts_view(*label_names),
            },
        ),
        out matches Ok(vec) ==> {
            &&& counter_opts(vec) == (FamilyOpts {
                name: name@,
                help: help@,
                const_label: const_label@,
                const_value: const_value@,
                labels: texts_view(*label_names),
            })
            &&& counter_series(vec) == Map::<Seq<Seq<char>>, u64>::empty()
        },
{
    let names: Vec<&str> = label_names.iter().map(|label| label.as_str()).collect();
    let opts = prometheus::Opts::new(name, help).const_label(const_label, const_value);
    Ok(CounterVec { inner: prometheus::IntCounterVec::new(opts, &names)? })
}

/// Registers a family with `Registry::register`. The registry refuses the
/// family where its number is taken, or where the registry remembers its
/// name with another shape; so it refuses a family that it holds already.
/// Where it takes the family, the family's number is taken and its shape
/// remembered. Where it refuses, it holds what it held and the same numbers
/// are taken; it may have come to remember the family's shape.
#[verifier::external_body]
fn registry_register(registry: &mut prometheus::Registry, vec: &CounterVec) -> (out: Result<(), prometheus::Error>)
    ensures
        out is Err <==> registry_taken(*old(registry)).contains(
            spec_desc_id(counter_opts(*vec).name, counter_opts(*vec).const_value),
        ) || (registry_dims(*old(registry)).contains_key(counter_opts(*vec).name) && registry_dims(
            *old(registry),
        )[counter_opts(*vec).name] != spec_dim_hash(
            counter_opts(*vec).help,
            counter_opts(*vec).const_label,
            counter_opts(*vec).labels,
        )),
        out is Ok ==> registry_ids(*final(registry)) == registry_ids(*old(registry)).insert(counter_id(*vec)),
        out is Ok ==> registry_taken(*final(registry)) == registry_taken(*old(registry)).insert(
            spec_desc_id(counter_opts(*vec).name, counter_opts(*vec).const_value),
        ),
        out is Ok ==> registry_dims(*final(registry)) == registry_dims(*old(registry)).insert(
            counter_opts(*vec).name,
            spec_dim_hash(counter_opts(*vec).help, counter_opts(*vec).const_label, counter_opts(*vec).labels),
        ),
        out is Err ==> registry_ids(*final(registry)) == registry_ids(*old(registry)),
        out is Err ==> registry_taken(*final(registry)) == registry_taken(*old(registry)),
        out is Err ==> kept_in(registry_dims(*old(registry)), registry_dims(*final(registry))),
        out is Err ==> registry_dims(*final(registry)) == registry_dims(*old(registry)) || registry_dims(
            *final(registry),
        ) == registry_dims(*old(registry)).insert(
            counter_opts(*vec).name,
            spec_dim_hash(counter_opts(*vec).help, counter_opts(*vec).const_label, counter_opts(*vec).labels),
        ),
        registry_ids(*old(registry)).contains(counter_id(*vec)) ==> out is Err,
{
    registry.register(Box::new(vec.inner.clone()))
}

/// Takes a family out of the registry that holds it, with
/// `Registry::unregister`, which finds a collector by its descriptors. The
/// family's number is free again; what the registry remembers of shapes
/// stays.
#[verifier::external_body]
fn registry_unregister(registry: &mut prometheus::Registry, vec: &CounterVec) -> (out: Result<(), prometheus::Error>)
    requires
        registry_ids(*old(registry)).contains(counter_id(*vec)),
    ensures
        out is Ok,
        registry_ids(*final(registry)) == registry_ids(*old(registry)).remove(counter_id(*vec)),
        registry_taken(*final(registry)) == registry_taken(*old(registry)).remove(
            spec_desc_id(counter_opts(*vec).name, counter_opts(*vec).const_value),
        ),
        registry_dims(*final(registry)) == registry_dims(*old(registry)),
{
    registry.unregister(Box::new(vec.inner.clone()))
}

/// Makes sure that the counter for the given label values exists, with
/// `MetricVec::with_label_values`. The family finds a counter by the hash
/// of the label values: where it has none of that hash, it makes one for
/// these label values, which stands at 0; where it has one, nothing
/// changes. It never holds two counters of one hash. The call panics on a
/// wrong number of values, which the precondition excludes.
#[verifier::external_body]
fn counter_touch(vec: &mut CounterVec, labels: &Vec<String>)
    requires
        labels.len() == counter_labels(*old(vec)).len(),
    ensures
        counter_opts(*final(vec)) == counter_opts(*old(vec)),
        counter_series(*final(vec)) == touched_series(counter_series(*old(vec)), texts_view(*labels)),
        forall|first: Seq<Seq<char>>, second: Seq<Seq<char>>|
            #[trigger] counter_series(*final(vec)).contains_key(first) && #[trigger] counter_series(
                *final(vec),
            ).contains_key(second) && first.len() == second.len() && spec_label_hash(first) == spec_label_hash(second)
                ==> first == second,
{
    let values: Vec<&str> = labels.iter().map(|label| label.as_str()).collect();
    vec.inner.with_label_values(&values);
}

/// Moves the counter for the given label values by one, with
/// `MetricVec::with_label_values` and `GenericCounter::inc`, which adds
/// with wrap-around. The family finds the counter by the hash of the label
/// values and makes it where it has none. No other counter changes. The
/// family never holds two counters of one hash.
#[verifier::external_body]
fn counter_inc(vec: &mut CounterVec, labels: &Vec<String>)
    requires
        labels.len() == counter_labels(*old(vec)).len(),
    ensures
        counter_opts(*final(vec)) == counter_opts(*old(vec)),
        counter_series(*final(vec)) == moved_series(counter_series(*old(vec)), texts_view(*labels)),
        forall|first: Seq<Seq<char>>, second: Seq<Seq<char>>|
            #[trigger] counter_series(*final(vec)).contains_key(first) && #[trigger] counter_series(
                *final(vec),
            ).contains_key(second) && first.len() == second.len() && spec_label_hash(first) == spec_label_hash(second)
                ==> first == second,
{
    let values: Vec<&str> = labels.iter().map(|label| label.as_str()).collect();
    vec.inner.with_label_values(&values).inc();
}

/// An empty table, by `CHashMap::new`.
#[verifier::external_body]
fn new_table() -> (out: chashmap::CHashMap<String, ZoneMetrics>)
    ensures
        table_counters(out).dom().is_empty(),
{
    chashmap::CHashMap::new()
}

/// Puts the counters of a zone into the table, with `CHashMap::insert`,
/// which hands back what the table held for the zone before.
#[verifier::external_body]
fn table_insert(table: &mut chashmap::CHashMap<String, ZoneMetrics>, zone: String, metrics: ZoneMetrics) -> (out:
    Option<ZoneMetrics>)
    ensures
        table_counters(*final(table)) == table_counters(*old(table)).insert(zone@, zone_counters(metrics)),
        out is Some <==> table_counters(*old(table)).contains_key(zone@),
        out matches Some(before) ==> zone_counters(before) == table_counters(*old(table))[zone@],
{
    table.insert(zone, metrics)
}

/// Takes the counters of a zone out of the table, with `CHashMap::remove`.
#[verifier::external_body]
fn table_remove(table: &mut chashmap::CHashMap<String, ZoneMetrics>, zone: &str) -> (out: Option<ZoneMetrics>)
    ensures
        table_counters(*final(table)) == table_counters(*old(table)).remove(zone@),
        out is Some <==> table_counters(*old(table)).contains_key(zone@),
        out matches Some(before) ==> zone_counters(before) == table_counters(*old(table))[zone@],
{
    table.remove(zone)
}

fn text(s: &str) -> (out: String)
    ensures
        out@ == s@,
{
    String::from_str(s)
}

fn one_label(label: String) -> (out: Vec<String>)
    ensures
        texts_view(out) == seq![label@],
        out.len() == 1,
{
    let mut out: Vec<String> = Vec::new();
    out.push(label);
    assert(texts_view(out) =~= seq![label@]);
    out
}

fn two_labels(first: String, second: String) -> (out: Vec<String>)
    ensures
        texts_view(out) == seq![first@, second@],
        out.len() == 2,
{
    let mut out: Vec<String> = Vec::new();
    out.push(first);
    out.push(second);
    assert(texts_view(out) =~= seq![first@, second@]);
    out
}

impl ResponseCode {
    /// The label of the response code.
    pub fn label(self) -> (out: &'static str)
        ensures
            out@ == response_code_text(self),
    {
        match self {
            ResponseCode::NoError => "NOERROR",
            ResponseCode::FormErr => "FORMERR",
            ResponseCode::ServFail => "SERVFAIL",
            ResponseCode::NXDomain => "NXDOMAIN",
            ResponseCode::NotImp => "NOTIMP",
            ResponseCode::Refused => "REFUSED",
            ResponseCode::Other(_) => "OTHER",
        }
    }
}

impl IpVersion {
    /// The label of the version.
    pub fn label(self) -> (out: &'static str)
        ensures
            out@ == ip_version_text(self),
    {
        match self {
            IpVersion::V4 => "IPv4",
            IpVersion::V6 => "IPv6",
        }
    }
}

impl Protocol {
    /// The label of the transport.
    pub fn label(self) -> (out: &'static str)
        ensures
            out@ == protocol_text(self),
    {
        match self {
            Protocol::Udp => "UDP",
            Protocol::Tcp => "TCP",
            Protocol::Tls => "TLS",
            Protocol::Dtls => "DTLS",
            Protocol::Https => "HTTPS",
            Protocol::Quic => "QUIC",
        }
    }
}

impl Family {
    /// The place of the family among the five.
    pub fn index(self) -> (out: usize)
        ensures
            out == family_index(self),
            out < 5,
    {
        match self {
            Family::ResponseCode => 0,
            Family::QueryType => 1,
            Family::QueryClass => 2,
            Family::ConnectionTypes => 3,
            Family::CountryQueries => 4,
        }
    }

    /// The family at a place among the five.
    pub fn at(index: usize) -> (out: Family)
        requires
            index < 5,
        ensures
            out == family_at(index as int),
            family_index(out) == index,
    {
        if index == 0 {
            Family::ResponseCode
        } else if index == 1 {
            Family::QueryType
        } else if index == 2 {
            Family::QueryClass
        } else if index == 3 {
            Family::ConnectionTypes
        } else {
            Family::CountryQueries
        }
    }

    /// The name of the metric of the family.
    pub fn name(self) -> (out: &'static str)
        ensures
            out@ == family_name(self),
    {
        match self {
            Family::ResponseCode => "response_code",
            Family::QueryType => "query_type",
            Family::QueryClass => "query_class",
            Family::ConnectionTypes => "connection_types",
            Family::CountryQueries => "country_queries",
        }
    }

    /// What the metric of the family counts, in words.
    pub fn help(self) -> (out: &'static str)
        ensures
            out@ == family_help(self),
    {
        match self {
            Family::ResponseCode => "response codes returned by queries to zones in the given authority.",
            Family::QueryType => "the record type requested by the query.",
            Family::QueryClass => "The class in the query",
            Family::ConnectionTypes => "The type of connection used for the query to the zone",
            Family::CountryQueries => "The assumed country a query originates from",
        }
    }

    /// The names of the labels by which the counters of the family are told
    /// apart.
    pub fn label_names(self) -> (out: Vec<String>)
        ensures
            texts_view(out) == family_labels(self),
            out.len() == family_arity(self),
    {
        match self {
            Family::ResponseCode => one_label(text("code")),
            Family::QueryType => one_label(text("record")),
            Family::QueryClass => one_label(text("class")),
            Family::ConnectionTypes => two_labels(text("ip_version"), text("protocol")),
            Family::CountryQueries => one_label(text("country")),
        }
    }
}

/// The response codes that the server sends.
pub open spec fn known_response_codes() -> Seq<ResponseCode> {
    seq![
        ResponseCode::NoError,
        ResponseCode::NotImp,
        ResponseCode::ServFail,
        ResponseCode::NXDomain,
        ResponseCode::Refused,
    ]
}

/// The record types that have a name.
pub open spec fn known_record_types() -> Seq<RecordType> {
    seq![
        RecordType::A,
        RecordType::AAAA,
        RecordType::ANAME,
        RecordType::ANY,
        RecordType::AXFR,
        RecordType::CAA,
        RecordType::CDS,
        RecordType::CDNSKEY,
        RecordType::CNAME,
        RecordType::CSYNC,
        RecordType::DNSKEY,
        RecordType::DS,
        RecordType::HINFO,
        RecordType::HTTPS,
        RecordType::IXFR,
        RecordType::KEY,
        RecordType::MX,
        RecordType::NAPTR,
        RecordType::NS,
        RecordType::NSEC,
        RecordType::NSEC3,
        RecordType::NSEC3PARAM,
        RecordType::NULL,
        RecordType::OPENPGPKEY,
        RecordType::OPT,
        RecordType::PTR,
        RecordType::RRSIG,
        RecordType::SIG,
        RecordType::SOA,
        RecordType::SRV,
        RecordType::SSHFP,
        RecordType::SVCB,
        RecordType::TLSA,
        RecordType::TSIG,
        RecordType::TXT,
    ]
}

/// The classes that have a name.
pub open spec fn known_classes() -> Seq<DnsClass> {
    seq![DnsClass::IN, DnsClass::CH, DnsClass::HS, DnsClass::NONE, DnsClass::ANY]
}

/// The transports that the server listens on, each with both versions of
/// the Internet Protocol.
pub open spec fn known_connections() -> Seq<(IpVersion, Protocol)> {
    seq![
        (IpVersion::V4, Protocol::Udp),
        (IpVersion::V4, Protocol::Tcp),
        (IpVersion::V6, Protocol::Udp),
        (IpVersion::V6, Protocol::Tcp),
    ]
}

/// The label values of the counters of a family that exist from the start,
/// so that each shows with the value 0 before it first moves. The countries
/// have none: their counters come as requests come.
pub open spec fn prefilled(family: Family) -> Seq<Seq<Seq<char>>> {
    match family {
        Family::ResponseCode => Seq::new(
            known_response_codes().len(),
            |i: int| seq![response_code_text(known_response_codes()[i])],
        ),
        Family::QueryType => Seq::new(
            known_record_types().len(),
            |i: int| seq![spec_type_text(type_code(known_record_types()[i]))],
        ),
        Family::QueryClass => Seq::new(known_classes().len(), |i: int| seq![class_text(known_classes()[i])]),
        Family::ConnectionTypes => Seq::new(
            known_connections().len(),
            |i: int| seq![ip_version_text(known_connections()[i].0), protocol_text(known_connections()[i].1)],
        ),
        Family::CountryQueries => Seq::empty(),
    }
}

/// The label vectors held in a vector, in their order.
pub open spec fn label_sets_view(sets: Vec<Vec<String>>) -> Seq<Seq<Seq<char>>> {
    Seq::new(sets.len() as nat, |i: int| texts_view(sets[i]))
}

fn response_code_list() -> (out: Vec<ResponseCode>)
    ensures
        out@ == known_response_codes(),
{
    let mut out: Vec<ResponseCode> = Vec::new();
    out.push(ResponseCode::NoError);
    out.push(ResponseCode::NotImp);
    out.push(ResponseCode::ServFail);
    out.push(ResponseCode::NXDomain);
    out.push(ResponseCode::Refused);
    assert(out@ =~= known_response_codes());
    out
}

fn record_type_list() -> (out: Vec<RecordType>)
    ensures
        out@ == known_record_types(),
{
    let mut out: Vec<RecordType> = Vec::new();
    out.push(RecordType::A);
    out.push(RecordType::AAAA);
    out.push(RecordType::ANAME);
    out.push(RecordType::ANY);
    out.push(RecordType::AXFR);
    out.push(RecordType::CAA);
    out.push(RecordType::CDS);
    out.push(RecordType::CDNSKEY);
    out.push(RecordType::CNAME);
    out.push(RecordType::CSYNC);
    out.push(RecordType::DNSKEY);
    out.push(RecordType::DS);
    out.push(RecordType::HINFO);
    out.push(RecordType::HTTPS);
    out.push(RecordType::IXFR);
    out.push(RecordType::KEY);
    out.push(RecordType::MX);
    out.push(RecordType::NAPTR);
    out.push(RecordType::NS);
    out.push(RecordType::NSEC);
    out.push(RecordType::NSEC3);
    out.push(RecordType::NSEC3PARAM);
    out.push(RecordType::NULL);
    out.push(RecordType::OPENPGPKEY);
    out.push(RecordType::OPT);
    out.push(RecordType::PTR);
    out.push(RecordType::RRSIG);
    out.push(RecordType::SIG);
    out.push(RecordType::SOA);
    out.push(RecordType::SRV);
    out.push(RecordType::SSHFP);
    out.push(RecordType::SVCB);
    out.push(RecordType::TLSA);
    out.push(RecordType::TSIG);
    out.push(RecordType::TXT);
    assert(out@ =~= known_record_types());
    out
}

fn class_list() -> (out: Vec<DnsClass>)
    ensures
        out@ == known_classes(),
{
    let mut out: Vec<DnsClass> = Vec::new();
    out.push(DnsClass::IN);
    out.push(DnsClass::CH);
    out.push(DnsClass::HS);
    out.push(DnsClass::NONE);
    out.push(DnsClass::ANY);
    assert(out@ =~= known_classes());
    out
}

fn connection_list() -> (out: Vec<(IpVersion, Protocol)>)
    ensures
        out@ == known_connections(),
{
    let mut out: Vec<(IpVersion, Protocol)> = Vec::new();
    out.push((IpVersion::V4, Protocol::Udp));
    out.push((IpVersion::V4, Protocol::Tcp));
    out.push((IpVersion::V6, Protocol::Udp));
    out.push((IpVersion::V6, Protocol::Tcp));
    assert(out@ =~= known_connections());
    out
}

impl Family {
    /// The label values of the counters of the family that exist from the
    /// start.
    pub fn prefill(self) -> (out: Vec<Vec<String>>)
        ensures
            label_sets_view(out) == prefilled(self),
            forall|i: int| 0 <= i < out.len() ==> (#[trigger] out[i]).len() == family_arity(self),
    {
        let mut out: Vec<Vec<String>> = Vec::new();
        match self {
            Family::ResponseCode => {
                let codes = response_code_list();
                let mut i: usize = 0;
                while i < codes.len()
                    invariant
                        i <= codes.len(),
                        codes@ == known_response_codes(),
                        out.len() == i,
                        forall|k: int|
                            0 <= k < i ==> texts_view(#[trigger] out[k]) == seq![
                                response_code_text(codes[k]),
                            ] && out[k].len() == 1,
                    decreases codes.len() - i,
                {
                    out.push(one_label(text(codes[i].label())));
                    i = i + 1;
                }
                assert(label_sets_view(out) =~= prefilled(self));
            },
            Family::QueryType => {
                let types = record_type_list();
                let mut i: usize = 0;
                while i < types.len()
                    invariant
                        i <= types.len(),
                        types@ == known_record_types(),
                        out.len() == i,
                        forall|k: int|
                            0 <= k < i ==> texts_view(#[trigger] out[k]) == seq![
                                spec_type_text(type_code(types[k])),
                            ] && out[k].len() == 1,
                    decreases types.len() - i,
                {
                    out.push(one_label(types[i].text()));
                    i = i + 1;
                }
                assert(label_sets_view(out) =~= prefilled(self));
            },
            Family::QueryClass => {
                let classes = class_list();
                let mut i: usize = 0;
                while i < classes.len()
                    invariant
                        i <= classes.len(),
                        classes@ == known_classes(),
                        out.len() == i,
                        forall|k: int|
                            0 <= k < i ==> texts_view(#[trigger] out[k]) == seq![class_text(classes[k])]
                                && out[k].len() == 1,
                    decreases classes.len() - i,
                {
                    out.push(one_label(text(classes[i].text())));
                    i = i + 1;
                }
                assert(label_sets_view(out) =~= prefilled(self));
            },
            Family::ConnectionTypes => {
                let connections = connection_list();
                let mut i: usize = 0;
                while i < connections.len()
                    invariant
                        i <= connections.len(),
                        connections@ == known_connections(),
                        out.len() == i,
                        forall|k: int|
                            0 <= k < i ==> texts_view(#[trigger] out[k]) == seq![
                                ip_version_text(connections[k].0),
                                protocol_text(connections[k].1),
                            ] && out[k].len() == 2,
                    decreases connections.len() - i,
                {
                    let pair = connections[i];
                    out.push(two_labels(text(pair.0.label()), text(pair.1.label())));
                    i = i + 1;
                }
                assert(label_sets_view(out) =~= prefilled(self));
            },
            Family::CountryQueries => {
                assert(label_sets_view(out) =~= prefilled(self));
            },
        }
        out
    }
}

/// Whether the counters with the first `n` of the given label values exist.
pub open spec fn holds_all(series: Map<Seq<Seq<char>>, u64>, labels: Seq<Seq<Seq<char>>>, n: int) -> bool {
    forall|i: int| 0 <= i < n ==> has_counter(series, #[trigger] labels[i])
}

/// Whether every counter that exists stands at 0.
pub open spec fn all_zero(series: Map<Seq<Seq<char>>, u64>) -> bool {
    forall|labels: Seq<Seq<char>>| #[trigger] series.contains_key(labels) ==> series[labels] == 0
}

impl ZoneMetrics {
    /// The zone label that the counters were made for.
    pub closed spec fn label(&self) -> Seq<char> {
        counter_id(self.vecs[0]).1
    }

    /// What holds of the counters of every zone: there are the five
    /// families, each under its name, with the zone's label and with its
    /// number of labels, and none holds two counters for label values that
    /// it cannot tell apart.
    pub closed spec fn wf(&self) -> bool {
        &&& self.vecs.len() == 5
        &&& zone_ids(*self) == expected_ids(self.label())
        &&& forall|i: int| 0 <= i < 5 ==> single(counter_series(#[trigger] self.vecs[i]))
    }

    /// The counters of a family.
    pub closed spec fn series(&self, family: Family) -> Map<Seq<Seq<char>>, u64> {
        counter_series(self.vecs[family_index(family)])
    }

    /// What a family was made with.
    pub closed spec fn opts(&self, family: Family) -> FamilyOpts {
        counter_opts(self.vecs[family_index(family)])
    }
}

/// The names of the five metrics differ.
pub proof fn lemma_family_names_differ()
    ensures
        forall|i: int, j: int|
            0 <= i < 5 && 0 <= j < 5 && i != j ==> family_name(#[trigger] family_at(i)) != family_name(
                #[trigger] family_at(j),
            ),
{
    reveal_strlit("response_code");
    reveal_strlit("query_type");
    reveal_strlit("query_class");
    reveal_strlit("connection_types");
    reveal_strlit("country_queries");
    assert(family_name(family_at(0)).len() == 13);
    assert(family_name(family_at(1)).len() == 10);
    assert(family_name(family_at(2)).len() == 11);
    assert(family_name(family_at(3)).len() == 16);
    assert(family_name(family_at(4)).len() == 15);
}

/// The collectors of the first `n` families of the zone with the given
/// label.
pub open spec fn first_family_ids(label: Seq<char>, n: int) -> Set<(Seq<char>, Seq<char>)> {
    Set::new(
        |id: (Seq<char>, Seq<char>)|
            id.1 == label && exists|i: int| 0 <= i < n && id.0 == family_name(#[trigger] family_at(i)),
    )
}

proof fn lemma_first_family_ids(label: Seq<char>, n: int)
    requires
        0 <= n < 5,
    ensures
        first_family_ids(label, 0) == Set::<(Seq<char>, Seq<char>)>::empty(),
        first_family_ids(label, n + 1) == first_family_ids(label, n).insert((family_name(family_at(n)), label)),
        !first_family_ids(label, n).contains((family_name(family_at(n)), label)),
        first_family_ids(label, 5) == family_ids(label),
{
    lemma_family_names_differ();
    assert(first_family_ids(label, 0) =~= Set::<(Seq<char>, Seq<char>)>::empty());
    let more = first_family_ids(label, n + 1);
    let less = first_family_ids(label, n).insert((family_name(family_at(n)), label));
    assert forall|id: (Seq<char>, Seq<char>)| more.contains(id) <==> less.contains(id) by {
        if more.contains(id) {
            let i = choose|i: int| 0 <= i < n + 1 && id.0 == family_name(#[trigger] family_at(i));
            if i < n {
                assert(first_family_ids(label, n).contains(id));
            }
        }
        if less.contains(id) {
            if id == (family_name(family_at(n)), label) {
                assert(family_at(n) == family_at(n));
            } else {
                let i = choose|i: int| 0 <= i < n && id.0 == family_name(#[trigger] family_at(i));
                assert(0 <= i < n + 1);
            }
        }
    }
    assert(more =~= less);
    if first_family_ids(label, n).contains((family_name(family_at(n)), label)) {
        let i = choose|i: int| 0 <= i < n && family_name(family_at(n)) == family_name(#[trigger] family_at(i));
        assert(family_name(family_at(i)) != family_name(family_at(n)));
    }
    assert(first_family_ids(label, 5) =~= family_ids(label));
}

/// The label of a zone's counters: the text of the zone's name, or
/// `UNKNOWN` for the zone of the queries that lie in no zone.
pub open spec fn zone_label(zone: Option<NameView>) -> Seq<char> {
    match zone {
        Some(name) => crate::name::spec_name_text(name.labels, name.fqdn),
        None => unknown_label(),
    }
}

/// What a family of the zone with the given label is made with.
pub open spec fn family_opts(family: Family, label: Seq<char>) -> FamilyOpts {
    FamilyOpts {
        name: family_name(family),
        help: family_help(family),
        const_label: "zone"@,
        const_value: label,
        labels: family_labels(family),
    }
}

/// Each family of a zone can be made, whatever the zone's label is.
pub proof fn lemma_families_made(family: Family, label: Seq<char>)
    ensures
        family_made(family_opts(family, label)),
{
    reveal_strlit("zone");
    assert(valid_name("zone"@, false));
    match family {
        Family::ResponseCode => {
            reveal_strlit("response_code");
            reveal_strlit("code");
            reveal_strlit("response codes returned by queries to zones in the given authority.");
            assert(valid_name("response_code"@, true));
            assert(valid_name("code"@, false));
        },
        Family::QueryType => {
            reveal_strlit("query_type");
            reveal_strlit("record");
            reveal_strlit("the record type requested by the query.");
            assert(valid_name("query_type"@, true));
            assert(valid_name("record"@, false));
        },
        Family::QueryClass => {
            reveal_strlit("query_class");
            reveal_strlit("class");
            reveal_strlit("The class in the query");
            assert(valid_name("query_class"@, true));
            assert(valid_name("class"@, false));
        },
        Family::ConnectionTypes => {
            reveal_strlit("connection_types");
            reveal_strlit("ip_version");
            reveal_strlit("protocol");
            reveal_strlit("The type of connection used for the query to the zone");
            assert(valid_name("connection_types"@, true));
            assert(valid_name("ip_version"@, false));
            assert(valid_name("protocol"@, false));
            assert("ip_version"@.len() != "protocol"@.len());
        },
        Family::CountryQueries => {
            reveal_strlit("country_queries");
            reveal_strlit("country");
            reveal_strlit("The assumed country a query originates from");
            assert(valid_name("country_queries"@, true));
            assert(valid_name("country"@, false));
        },
    }
}

/// The number by which a registry knows a family of the zone with the
/// given label.
pub open spec fn zone_id(label: Seq<char>, family: Family) -> u64 {
    spec_desc_id(family_name(family), label)
}

/// The number that stands for the shape of a family of any zone.
pub open spec fn family_dim(family: Family) -> u64 {
    spec_dim_hash(family_help(family), "zone"@, family_labels(family))
}

/// The numbers of the families of the zone with the given label, from
/// family number `from` up to, and without, family number `to`.
pub open spec fn zone_taken(label: Seq<char>, from: int, to: int) -> Set<u64> {
    Set::new(|id: u64| exists|k: int| from <= k < to && 0 <= k < 5 && id == zone_id(label, #[trigger] family_at(k)))
}

/// The shapes that a registry remembers once it has been given the first
/// `n` families of a zone, if it remembered `dims` before.
pub open spec fn dims_after(dims: Map<Seq<char>, u64>, n: int) -> Map<Seq<char>, u64>
    decreases n,
{
    if n <= 0 {
        dims
    } else {
        dims_after(dims, n - 1).insert(family_name(family_at(n - 1)), family_dim(family_at(n - 1)))
    }
}

/// Whether a registry refuses family number `k` of the zone with the given
/// label, once it has taken the families before it: `taken` and `dims` are
/// what was taken in it and what it remembered before the first of them.
pub open spec fn refused_at(taken: Set<u64>, dims: Map<Seq<char>, u64>, label: Seq<char>, k: int) -> bool {
    ||| taken.contains(zone_id(label, family_at(k)))
    ||| zone_taken(label, 0, k).contains(zone_id(label, family_at(k)))
    ||| dims_after(dims, k).contains_key(family_name(family_at(k))) && dims_after(dims, k)[family_name(
        family_at(k),
    )] != family_dim(family_at(k))
}

/// Whether a registry refuses one of the five families of the zone with
/// the given label, which it is given in their order.
pub open spec fn zone_refused(taken: Set<u64>, dims: Map<Seq<char>, u64>, label: Seq<char>) -> bool {
    exists|k: int| 0 <= k < 5 && #[trigger] refused_at(taken, dims, label, k)
}

proof fn lemma_zone_taken(label: Seq<char>, from: int, to: int)
    requires
        0 <= from <= to < 5,
    ensures
        zone_taken(label, from, from) == Set::<u64>::empty(),
        zone_taken(label, from, to + 1) == zone_taken(label, from, to).insert(zone_id(label, family_at(to))),
{
    assert(zone_taken(label, from, from) =~= Set::<u64>::empty());
    let more = zone_taken(label, from, to + 1);
    let less = zone_taken(label, from, to).insert(zone_id(label, family_at(to)));
    assert forall|id: u64| more.contains(id) <==> less.contains(id) by {
        if more.contains(id) {
            let k = choose|k: int| from <= k < to + 1 && 0 <= k < 5 && id == zone_id(label, #[trigger] family_at(k));
            if k < to {
                assert(zone_taken(label, from, to).contains(id));
            }
        }
        if less.contains(id) {
            if id == zone_id(label, family_at(to)) {
                assert(family_at(to) == family_at(to));
            } else {
                let k = choose|k: int| from <= k < to && 0 <= k < 5 && id == zone_id(label, #[trigger] family_at(k));
                assert(from <= k < to + 1);
            }
        }
    }
    assert(more =~= less);
}

impl ZoneMetrics {
    /// Makes the five families of a zone and puts them into the registry;
    /// the counters that are to show from the start are made with them and
    /// stand at 0. `zone` is `None` for the unknown zone.
    ///
    /// The families are made and registered in their order. Each of them
    /// can be made, so that `MetricsError::Create` does not come. It fails
    /// with `MetricsError::Register` exactly where the registry refuses one
    /// of the five; the registry then holds what it held and the same
    /// numbers are taken in it, and it has forgotten no shape. It refuses
    /// the families of a zone that it holds already. The family of the
    /// countries starts without a counter.
    pub fn register(zone: Option<&DomainName>, registry: &mut prometheus::Registry) -> (out: Result<
        ZoneMetrics,
        MetricsError,
    >)
        ensures
            out is Err <==> zone_refused(
                registry_taken(*old(registry)),
                registry_dims(*old(registry)),
                zone_label(
                    match zone {
                        Some(name) => Some(name@),
                        None => None,
                    },
                ),
            ),
            out matches Err(error) ==> error == MetricsError::Register,
            out matches Ok(metrics) ==> {
                &&& registry_taken(*final(registry)) == registry_taken(*old(registry)).union(
                    zone_taken(metrics.label(), 0, 5),
                )
                &&& registry_dims(*final(registry)) == dims_after(registry_dims(*old(registry)), 5)
                &&& metrics.series(Family::CountryQueries) == Map::<Seq<Seq<char>>, u64>::empty()
            },
            out matches Ok(metrics) ==> {
                &&& metrics.wf()
                &&& metrics.label() == zone_label(
                    match zone {
                        Some(name) => Some(name@),
                        None => None,
                    },
                )
                &&& registry_ids(*final(registry)) == registry_ids(*old(registry)).union(
                    family_ids(metrics.label()),
                )
                &&& registry_ids(*old(registry)).disjoint(family_ids(metrics.label()))
                &&& forall|i: int|
                    0 <= i < 5 ==> metrics.opts(#[trigger] family_at(i)) == family_opts(
                        family_at(i),
                        metrics.label(),
                    )
                &&& forall|i: int|
                    0 <= i < 5 ==> holds_all(
                        metrics.series(#[trigger] family_at(i)),
                        prefilled(family_at(i)),
                        prefilled(family_at(i)).len() as int,
                    ) && all_zero(metrics.series(family_at(i)))
            },
            out is Err ==> {
                &&& registry_ids(*final(registry)) == registry_ids(*old(registry))
                &&& registry_taken(*final(registry)) == registry_taken(*old(registry))
                &&& kept_in(registry_dims(*old(registry)), registry_dims(*final(registry)))
            },
    {
        let label = match zone {
            Some(name) => name.to_text(),
            None => {
                proof {
                    reveal_strlit("UNKNOWN");
                }
                let unknown = text("UNKNOWN");
                assert(unknown@ =~= unknown_label());
                unknown
            },
        };
        let ghost before = registry_ids(*registry);
        let ghost taken = registry_taken(*registry);
        let ghost dims = registry_dims(*registry);
        let mut vecs: Vec<CounterVec> = Vec::new();
        let mut i: usize = 0;
        proof {
            lemma_first_family_ids(label@, 0);
            assert(before.union(first_family_ids(label@, 0)) =~= before);
            lemma_zone_taken(label@, 0, 0);
            assert(taken.union(zone_taken(label@, 0, 0)) =~= taken);
        }
        while i < 5
            invariant
                i <= 5,
                vecs.len() == i,
                taken == registry_taken(*old(registry)),
                dims == registry_dims(*old(registry)),
                label@ == zone_label(
                    match zone {
                        Some(name) => Some(name@),
                        None => None,
                    },
                ),
                registry_taken(*registry) == taken.union(zone_taken(label@, 0, i as int)),
                registry_dims(*registry) == dims_after(dims, i as int),
                kept_in(dims, registry_dims(*registry)),
                forall|k: int| 0 <= k < i ==> !#[trigger] refused_at(taken, dims, label@, k),
                forall|k: int|
                    0 <= k < i ==> {
                        &&& counter_opts(#[trigger] vecs[k]) == family_opts(family_at(k), label@)
                        &&& holds_all(
                            counter_series(vecs[k]),
                            prefilled(family_at(k)),
                            prefilled(family_at(k)).len() as int,
                        )
                        &&& all_zero(counter_series(vecs[k]))
                        &&& single(counter_series(vecs[k]))
                        &&& prefilled(family_at(k)).len() == 0 ==> counter_series(vecs[k]) == Map::<
                            Seq<Seq<char>>,
                            u64,
                        >::empty()
                    },
                before == registry_ids(*old(registry)),
                registry_ids(*registry) == before.union(first_family_ids(label@, i as int)),
                forall|k: int|
                    0 <= k < i ==> !before.contains((family_name(#[trigger] family_at(k)), label@)),
            decreases 5 - i,
        {
            let family = Family::at(i);
            let names = family.label_names();
            let made = new_counter_vec(family.name(), family.help(), "zone", label.as_str(), &names);
            assert(made matches Ok(vec) ==> counter_opts(vec) == family_opts(family, label@));
            proof {
                lemma_families_made(family, label@);
            }
            let mut vec = match made {
                Ok(vec) => vec,
                Err(_) => {
                    proof {
                        lemma_disjoint_so_far(before, label@, i as int);
                    }
                    withdraw_some(registry, &vecs, Ghost(label@), Ghost(before));
                    return Err(MetricsError::Create);
                },
            };
            let ghost id = zone_id(label@, family_at(i as int));
            proof {
                assert(id == spec_desc_id(counter_opts(vec).name, counter_opts(vec).const_value));
                assert(family_dim(family_at(i as int)) == spec_dim_hash(
                    counter_opts(vec).help,
                    counter_opts(vec).const_label,
                    counter_opts(vec).labels,
                ));
                assert(taken.union(zone_taken(label@, 0, i as int)).contains(id) <==> taken.contains(id)
                    || zone_taken(label@, 0, i as int).contains(id));
            }
            match registry_register(registry, &vec) {
                Ok(()) => {},
                Err(_) => {
                    proof {
                        lemma_disjoint_so_far(before, label@, i as int);
                        assert(refused_at(taken, dims, label@, i as int));
                    }
                    withdraw_some(registry, &vecs, Ghost(label@), Ghost(before));
                    proof {
                        assert(taken.union(zone_taken(label@, 0, i as int)).difference(
                            zone_taken(label@, 0, i as int),
                        ) =~= taken) by {
                            assert forall|other: u64| zone_taken(label@, 0, i as int).contains(other) implies
                                !taken.contains(other) by {
                                let k = choose|k: int|
                                    0 <= k < i && 0 <= k < 5 && other == zone_id(label@, #[trigger] family_at(k));
                                assert(!refused_at(taken, dims, label@, k));
                            }
                        }
                    }
                    return Err(MetricsError::Register);
                },
            }
            proof {
                assert(!refused_at(taken, dims, label@, i as int));
                lemma_zone_taken(label@, 0, i as int);
                assert(taken.union(zone_taken(label@, 0, i as int)).insert(id) =~= taken.union(
                    zone_taken(label@, 0, i as int + 1),
                ));
                assert(registry_dims(*registry) == dims_after(dims, i as int + 1));
            }
            proof {
                lemma_first_family_ids(label@, i as int);
                let id = (family_name(family_at(i as int)), label@);
                assert(before.union(first_family_ids(label@, i as int)).insert(id) =~= before.union(
                    first_family_ids(label@, i as int + 1),
                ));
                assert(!before.contains(id));
            }
            let labels = family.prefill();
            let mut k: usize = 0;
            while k < labels.len()
                invariant
                    k <= labels.len(),
                    label_sets_view(labels) == prefilled(family),
                    forall|j: int| 0 <= j < labels.len() ==> (#[trigger] labels[j]).len() == family_arity(family),
                    counter_opts(vec) == family_opts(family, label@),
                    k == 0 ==> counter_series(vec) == Map::<Seq<Seq<char>>, u64>::empty(),
                    single(counter_series(vec)),
                    holds_all(counter_series(vec), prefilled(family), k as int),
                    all_zero(counter_series(vec)),
                decreases labels.len() - k,
            {
                let ghost series = counter_series(vec);
                counter_touch(&mut vec, &labels[k]);
                proof {
                    let here = prefilled(family)[k as int];
                    assert(texts_view(labels[k as int]) == here);
                    assert forall|j: int| 0 <= j < k + 1 implies has_counter(
                        counter_series(vec),
                        #[trigger] prefilled(family)[j],
                    ) by {
                        if j < k {
                            let held = counter_key(series, prefilled(family)[j]);
                            assert(counter_series(vec).contains_key(held));
                        } else if has_counter(series, here) {
                            let held = counter_key(series, here);
                            assert(counter_series(vec).contains_key(held));
                        } else {
                            assert(counter_series(vec).contains_key(here) && same_counter(here, here));
                        }
                    }
                }
                k = k + 1;
            }
            vecs.push(vec);
            i = i + 1;
        }
        let out = ZoneMetrics { vecs };
        proof {
            lemma_first_family_ids(label@, 4);
            assert(zone_ids(out).ids =~= expected_ids(label@).ids);
            assert(zone_ids(out).labels =~= expected_ids(label@).labels);
            assert(before.disjoint(family_ids(label@))) by {
                assert forall|id: (Seq<char>, Seq<char>)| family_ids(label@).contains(id) implies !before.contains(
                    id,
                ) by {
                    let j = choose|j: int| 0 <= j < 5 && id.0 == family_name(#[trigger] family_at(j));
                    assert(!before.contains((family_name(family_at(j)), label@)));
                }
            }
        }
        Ok(out)
    }

    /// Takes the five families of the zone out of the registry that holds
    /// them. Their numbers are free again; what the registry remembers of
    /// shapes stays.
    pub fn unregister(self, registry: &mut prometheus::Registry)
        requires
            self.wf(),
            family_ids(self.label()).subset_of(registry_ids(*old(registry))),
        ensures
            registry_ids(*final(registry)) == registry_ids(*old(registry)).difference(family_ids(self.label())),
            registry_taken(*final(registry)) == registry_taken(*old(registry)).difference(
                zone_taken(self.label(), 0, 5),
            ),
            registry_dims(*final(registry)) == registry_dims(*old(registry)),
    {
        let ghost label = self.label();
        let ghost rest = registry_ids(*registry).difference(family_ids(label));
        proof {
            lemma_first_family_ids(label, 4);
            assert(registry_ids(*registry) =~= rest.union(first_family_ids(label, 5)));
            assert forall|k: int| 0 <= k < 5 implies counter_id(#[trigger] self.vecs[k]) == (
                family_name(family_at(k)),
                label,
            ) by {
                assert(zone_ids(self).ids[k] == expected_ids(label).ids[k]);
            }
        }
        withdraw_some(registry, &self.vecs, Ghost(label), Ghost(rest));
    }
}

proof fn lemma_disjoint_so_far(before: Set<(Seq<char>, Seq<char>)>, label: Seq<char>, n: int)
    requires
        0 <= n <= 5,
        forall|k: int| 0 <= k < n ==> !before.contains((family_name(#[trigger] family_at(k)), label)),
    ensures
        before.disjoint(first_family_ids(label, n)),
{
    assert forall|id: (Seq<char>, Seq<char>)| first_family_ids(label, n).contains(id) implies !before.contains(
        id,
    ) by {
        let j = choose|j: int| 0 <= j < n && id.0 == family_name(#[trigger] family_at(j));
        assert(!before.contains((family_name(family_at(j)), label)));
    }
}

/// Takes out of the registry the families that were put into it so far,
/// where the making of a zone's families has to be given up.
fn withdraw_some(registry: &mut prometheus::Registry, vecs: &Vec<CounterVec>, Ghost(label): Ghost<Seq<char>>, Ghost(
    before,
): Ghost<Set<(Seq<char>, Seq<char>)>>)
    requires
        vecs.len() <= 5,
        forall|k: int| 0 <= k < vecs.len() ==> counter_id(#[trigger] vecs[k]) == (family_name(family_at(k)), label),
        registry_ids(*old(registry)) == before.union(first_family_ids(label, vecs.len() as int)),
        before.disjoint(first_family_ids(label, vecs.len() as int)),
    ensures
        registry_ids(*final(registry)) == before,
        registry_taken(*final(registry)) == registry_taken(*old(registry)).difference(
            zone_taken(label, 0, vecs.len() as int),
        ),
        registry_dims(*final(registry)) == registry_dims(*old(registry)),
{
    let mut n: usize = vecs.len();
    let ghost taken = registry_taken(*registry);
    proof {
        assert(zone_taken(label, n as int, vecs.len() as int) =~= Set::<u64>::empty());
        assert(taken.difference(zone_taken(label, n as int, vecs.len() as int)) =~= taken);
    }
    while n > 0
        invariant
            n <= vecs.len() <= 5,
            taken == registry_taken(*old(registry)),
            registry_taken(*registry) == taken.difference(zone_taken(label, n as int, vecs.len() as int)),
            registry_dims(*registry) == registry_dims(*old(registry)),
            forall|k: int|
                0 <= k < vecs.len() ==> counter_id(#[trigger] vecs[k]) == (family_name(family_at(k)), label),
            registry_ids(*registry) == before.union(first_family_ids(label, n as int)),
            before.disjoint(first_family_ids(label, n as int)),
        decreases n,
    {
        n = n - 1;
        proof {
            lemma_first_family_ids(label, n as int);
            let id = (family_name(family_at(n as int)), label);
            assert(first_family_ids(label, n as int + 1).contains(id));
            assert(!before.contains(id));
            assert(before.union(first_family_ids(label, n as int + 1)).remove(id) =~= before.union(
                first_family_ids(label, n as int),
            ));
            assert(before.disjoint(first_family_ids(label, n as int)));
            let number = zone_id(label, family_at(n as int));
            assert(number == spec_desc_id(counter_opts(vecs[n as int]).name, counter_opts(vecs[n as int]).const_value));
            let more = zone_taken(label, n as int, vecs.len() as int);
            let less = zone_taken(label, n as int + 1, vecs.len() as int);
            assert forall|other: u64| more.contains(other) <==> less.contains(other) || other == number by {
                if more.contains(other) {
                    let k = choose|k: int|
                        n <= k < vecs.len() && 0 <= k < 5 && other == zone_id(label, #[trigger] family_at(k));
                    if k > n {
                        assert(n + 1 <= k);
                        assert(less.contains(other));
                    }
                }
                if less.contains(other) {
                    let k = choose|k: int|
                        n + 1 <= k < vecs.len() && 0 <= k < 5 && other == zone_id(label, #[trigger] family_at(k));
                    assert(n <= k);
                }
                if other == number {
                    assert(family_at(n as int) == family_at(n as int));
                }
            }
            assert(taken.difference(less).remove(number) =~= taken.difference(more));
        }
        let _ = registry_unregister(registry, &vecs[n]);
    }
    proof {
        lemma_first_family_ids(label, 0);
        assert(before.union(first_family_ids(label, 0)) =~= before);
    }
}

impl ZoneMetrics {
    /// Moves the counter of `family` with the given label values by one.
    /// The counters of the other families stay as they are.
    pub fn bump(&mut self, family: Family, labels: &Vec<String>)
        requires
            old(self).wf(),
            labels.len() == family_arity(family),
        ensures
            final(self).wf(),
            final(self).label() == old(self).label(),
            final(self).series(family) == moved_series(old(self).series(family), texts_view(*labels)),
            count_at(final(self).series(family), texts_view(*labels)) == next_count(
                count_at(old(self).series(family), texts_view(*labels)),
            ),
            forall|other: Family| other != family ==> final(self).series(other) == old(self).series(other),
    {
        let index = family.index();
        let ghost before = *self;
        proof {
            assert(zone_ids(before).labels[index as int] == expected_ids(before.label()).labels[index as int]);
            assert(family_at(index as int) == family);
        }
        let mut vec = self.vecs.remove(index);
        proof {
            assert(vec == before.vecs[index as int]);
            lemma_moved_series(counter_series(vec), texts_view(*labels));
        }
        counter_inc(&mut vec, labels);
        self.vecs.insert(index, vec);
        proof {
            assert forall|i: int| 0 <= i < 5 implies single(counter_series(#[trigger] self.vecs[i])) by {
                if i != index {
                    assert(self.vecs[i] == before.vecs[i]);
                }
            }
            assert forall|k: int| 0 <= k < 5 && k != index implies self.vecs[k] == before.vecs[k] by {}
            assert(zone_ids(*self).ids =~= zone_ids(before).ids) by {
                assert forall|k: int| 0 <= k < 5 implies counter_id(self.vecs[k]) == counter_id(before.vecs[k]) by {}
            }
            assert(zone_ids(*self).labels =~= zone_ids(before).labels) by {
                assert forall|k: int| 0 <= k < 5 implies counter_labels(self.vecs[k]) == counter_labels(
                    before.vecs[k],
                ) by {}
            }
            assert(zone_ids(before).ids[0] == counter_id(before.vecs[0]));
            assert(zone_ids(*self).ids[0] == counter_id(self.vecs[0]));
        }
    }
}

/// The collectors that the registry holds when the table holds the given
/// zones: the families of the unknown zone and those of every zone of the
/// table.
pub open spec fn all_ids(zones: Set<Seq<char>>) -> Set<(Seq<char>, Seq<char>)> {
    Set::new(
        |id: (Seq<char>, Seq<char>)|
            (id.1 == unknown_label() || zones.contains(id.1)) && family_ids(id.1).contains(id),
    )
}

/// The counters of the server, by zone and family. The zone is `None` for
/// the unknown zone, else the label of a zone that has counters.
pub type Counts = Map<(Option<Seq<char>>, Family), Map<Seq<Seq<char>>, u64>>;

/// The counters once the counter of a zone and family for the given label
/// values has moved by one. Nothing moves where the zone has no counters.
pub open spec fn counted(counts: Counts, key: (Option<Seq<char>>, Family), labels: Seq<Seq<char>>) -> Counts {
    if counts.contains_key(key) {
        counts.insert(key, moved_series(counts[key], labels))
    } else {
        counts
    }
}

/// The zone and family of the counter that an update names.
pub open spec fn update_key(update: UpdateView) -> (Option<Seq<char>>, Family) {
    (
        match update_zone(update) {
            Some(zone) => Some(zone_label(Some(zone))),
            None => None,
        },
        update_family(update),
    )
}

/// The counters once the counter that an update names has moved.
pub open spec fn spec_record(counts: Counts, update: UpdateView) -> Counts {
    counted(counts, update_key(update), update_labels(update))
}

/// The counters once the counters that the first `n` updates name have
/// moved, one after the other.
pub open spec fn spec_record_all(counts: Counts, updates: Seq<UpdateView>, n: int) -> Counts
    decreases n,
{
    if n <= 0 {
        counts
    } else {
        spec_record(spec_record_all(counts, updates, n - 1), updates[n - 1])
    }
}

/// Whether one of the first `n` updates names the counters of the given
/// zone and family.
pub open spec fn names_counters(updates: Seq<UpdateView>, key: (Option<Seq<char>>, Family), n: int) -> bool {
    exists|i: int| 0 <= i < n && update_key(#[trigger] updates[i]) == key
}

/// Counting gives counters to no zone and takes them from none, and it
/// leaves alone the counters of a zone and family that no update names.
pub proof fn lemma_record_all_frame(
    counts: Counts,
    updates: Seq<UpdateView>,
    n: int,
    key: (Option<Seq<char>>, Family),
)
    requires
        0 <= n <= updates.len(),
    ensures
        spec_record_all(counts, updates, n).contains_key(key) == counts.contains_key(key),
        !names_counters(updates, key, n) ==> spec_record_all(counts, updates, n)[key] == counts[key],
    decreases n,
{
    if n > 0 {
        lemma_record_all_frame(counts, updates, n - 1, key);
        if !names_counters(updates, key, n) {
            assert(update_key(updates[n - 1]) != key);
            if names_counters(updates, key, n - 1) {
                let i = choose|i: int| 0 <= i < n - 1 && update_key(#[trigger] updates[i]) == key;
                assert(0 <= i < n);
            }
        }
    }
}

/// Where the last of the updates is the only one that names the counters
/// of its zone and family, and the zone has counters, the one counter that
/// it names has moved by one and no other of that zone and family has.
pub proof fn lemma_record_all_last(counts: Counts, updates: Seq<UpdateView>)
    requires
        updates.len() > 0,
        counts.contains_key(update_key(updates.last())),
        !names_counters(updates, update_key(updates.last()), updates.len() - 1),
    ensures
        spec_record_all(counts, updates, updates.len() as int)[update_key(updates.last())] == moved_series(
            counts[update_key(updates.last())],
            update_labels(updates.last()),
        ),
{
    lemma_record_all_frame(counts, updates, updates.len() - 1, update_key(updates.last()));
}

/// A zone whose families a registry took can get them again once they were
/// taken out: the registry refuses none of them then.
pub proof fn lemma_zone_comes_back(taken: Set<u64>, dims: Map<Seq<char>, u64>, label: Seq<char>)
    requires
        !zone_refused(taken, dims, label),
    ensures
        !zone_refused(taken.union(zone_taken(label, 0, 5)).difference(zone_taken(label, 0, 5)), dims_after(dims, 5), label),
{
    let back = taken.union(zone_taken(label, 0, 5)).difference(zone_taken(label, 0, 5));
    let known = dims_after(dims, 5);
    lemma_dims_after(dims, 5);
    assert(dims_known(known));
    assert forall|k: int| 0 <= k < 5 implies !#[trigger] refused_at(back, known, label, k) by {
        assert(!refused_at(taken, dims, label, k));
        lemma_dims_after(known, k);
        assert(family_at(k) == family_at(k));
        assert(zone_taken(label, 0, 5).contains(zone_id(label, family_at(k))));
    }
}

/// Whether the registry of the metrics refuses one of the five families of
/// the zone with the given label, when `taken` are the numbers taken in it:
/// the number of one of them is taken, or is that of a family of the zone
/// before it.
pub open spec fn label_refused(taken: Set<u64>, label: Seq<char>) -> bool {
    exists|k: int|
        0 <= k < 5 && (taken.contains(zone_id(label, #[trigger] family_at(k))) || zone_taken(label, 0, k).contains(
            zone_id(label, family_at(k)),
        ))
}

/// Whether the numbers of the five families of the zone with the given
/// label differ from each other.
pub open spec fn distinct_ids(label: Seq<char>) -> bool {
    forall|k: int| 0 <= k < 5 ==> !zone_taken(label, 0, k).contains(zone_id(label, #[trigger] family_at(k)))
}

/// The zones that have counters, and the numbers that are taken in the
/// registry.
pub struct Held {
    pub zones: Set<Seq<char>>,
    pub taken: Set<u64>,
}

/// What is held once the counters of the zone with the given label were
/// asked for: the zone has counters unless the registry refused it.
pub open spec fn spec_register_zone(held: Held, label: Seq<char>) -> Held {
    if label_refused(held.taken, label) {
        held
    } else {
        Held { zones: held.zones.insert(label), taken: held.taken.union(zone_taken(label, 0, 5)) }
    }
}

/// What is held once the counters of the zone with the given label were
/// taken away.
pub open spec fn spec_unregister_zone(held: Held, label: Seq<char>) -> Held {
    if held.zones.contains(label) {
        Held { zones: held.zones.remove(label), taken: held.taken.difference(zone_taken(label, 0, 5)) }
    } else {
        held
    }
}

/// Whether a registry remembers the shape of each of the five families.
pub open spec fn dims_known(dims: Map<Seq<char>, u64>) -> bool {
    forall|k: int|
        0 <= k < 5 ==> dims.contains_key(family_name(#[trigger] family_at(k))) && dims[family_name(family_at(k))]
            == family_dim(family_at(k))
}

proof fn lemma_dims_after(dims: Map<Seq<char>, u64>, n: int)
    requires
        0 <= n <= 5,
    ensures
        dims_known(dims) ==> dims_after(dims, n) == dims,
        forall|k: int|
            0 <= k < n ==> dims_after(dims, n).contains_key(family_name(#[trigger] family_at(k))) && dims_after(
                dims,
                n,
            )[family_name(family_at(k))] == family_dim(family_at(k)),
    decreases n,
{
    lemma_family_names_differ();
    if n > 0 {
        lemma_dims_after(dims, n - 1);
        if dims_known(dims) {
            assert(family_at(n - 1) == family_at(n - 1));
            assert(dims_after(dims, n) =~= dims);
        }
        assert forall|k: int| 0 <= k < n implies dims_after(dims, n).contains_key(
            family_name(#[trigger] family_at(k)),
        ) && dims_after(dims, n)[family_name(family_at(k))] == family_dim(family_at(k)) by {
            if k < n - 1 {
                assert(family_name(family_at(k)) != family_name(family_at(n - 1)));
            }
        }
    }
}

proof fn lemma_dims_keys(dims: Map<Seq<char>, u64>, n: int, name: Seq<char>)
    requires
        0 <= n <= 5,
        dims_after(dims, n).contains_key(name),
    ensures
        dims.contains_key(name) || exists|j: int| 0 <= j < n && name == family_name(#[trigger] family_at(j)),
    decreases n,
{
    if n > 0 {
        if name == family_name(family_at(n - 1)) {
            assert(family_at(n - 1) == family_at(n - 1));
        } else {
            lemma_dims_keys(dims, n - 1, name);
        }
    }
}

proof fn lemma_label_refused(taken: Set<u64>, dims: Map<Seq<char>, u64>, label: Seq<char>)
    requires
        dims_known(dims),
    ensures
        zone_refused(taken, dims, label) <==> label_refused(taken, label),
{
    assert forall|k: int| 0 <= k < 5 implies (#[trigger] refused_at(taken, dims, label, k) <==> taken.contains(
        zone_id(label, family_at(k)),
    ) || zone_taken(label, 0, k).contains(zone_id(label, family_at(k)))) by {
        lemma_dims_after(dims, k);
        assert(family_at(k) == family_at(k));
    }
    if zone_refused(taken, dims, label) {
        let k = choose|k: int| 0 <= k < 5 && #[trigger] refused_at(taken, dims, label, k);
        assert(family_at(k) == family_at(k));
    }
    if label_refused(taken, label) {
        let k = choose|k: int|
            0 <= k < 5 && (taken.contains(zone_id(label, #[trigger] family_at(k))) || zone_taken(
                label,
                0,
                k,
            ).contains(zone_id(label, family_at(k))));
        assert(refused_at(taken, dims, label, k));
    }
}

/// The metrics of the server: the registry, the counters of the unknown
/// zone, and the table of the counters of the zones.
pub struct Metrics {
    instance_name: String,
    registry: prometheus::Registry,
    zone_metrics: chashmap::CHashMap<String, ZoneMetrics>,
    unknown_zone_metrics: ZoneMetrics,
}

/// The text that a scrape gets of metrics with the given instance name and
/// counters: what `Registry::gather` collects, written by
/// `TextEncoder::encode`. The families come in the order of their names,
/// the counters of a family in the order of their label values.
pub uninterp spec fn spec_exposition(
    instance: Seq<char>,
    counts: Map<(Option<Seq<char>>, Family), Map<Seq<Seq<char>>, u64>>,
) -> Seq<u8>;

/// Writes down what the registry of the metrics shows, with
/// `Registry::gather` and `TextEncoder::encode`. The registry holds the
/// families that the metrics hold and no others, as the metrics put them
/// there when they made them; so the text is that of the counters of the
/// metrics, under the instance name that the registry was made with.
#[verifier::external_body]
fn exposition(metrics: &Metrics) -> (out: Vec<u8>)
    requires
        metrics.wf(),
    ensures
        out@ == spec_exposition(metrics.instance(), metrics.counts()),
{
    let mut buffer = Vec::new();
    let _ = prometheus::Encoder::encode(&prometheus::TextEncoder::new(), &metrics.registry.gather(), &mut buffer);
    buffer
}

impl Metrics {
    /// The name of the instance, which every metric carries as a label.
    pub closed spec fn instance(&self) -> Seq<char> {
        self.instance_name@
    }

    /// The labels of the zones that have counters.
    pub closed spec fn zones(&self) -> Set<Seq<char>> {
        table_counters(self.zone_metrics).dom()
    }

    /// The collectors that the registry holds.
    pub closed spec fn registered(&self) -> Set<(Seq<char>, Seq<char>)> {
        registry_ids(self.registry)
    }

    /// The numbers that are taken in the registry.
    pub closed spec fn taken(&self) -> Set<u64> {
        registry_taken(self.registry)
    }

    /// The counters of a family of a zone, or of the unknown zone for
    /// `None`.
    pub closed spec fn series(&self, zone: Option<Seq<char>>, family: Family) -> Map<Seq<Seq<char>>, u64> {
        match zone {
            None => self.unknown_zone_metrics.series(family),
            Some(label) => table_counters(self.zone_metrics)[label].series[family_index(family)],
        }
    }

    /// The zones that have counters, and the numbers that are taken in the
    /// registry.
    pub open spec fn held(&self) -> Held {
        Held { zones: self.zones(), taken: self.taken() }
    }

    /// Whether the counters of the zone with the given label are as they
    /// are made: those that show from the start stand at 0, and there are
    /// none for countries.
    pub open spec fn fresh(&self, label: Seq<char>) -> bool {
        &&& forall|i: int|
            0 <= i < 5 ==> holds_all(
                self.series(Some(label), #[trigger] family_at(i)),
                prefilled(family_at(i)),
                prefilled(family_at(i)).len() as int,
            ) && all_zero(self.series(Some(label), family_at(i)))
        &&& self.series(Some(label), Family::CountryQueries) == Map::<Seq<Seq<char>>, u64>::empty()
    }

    /// The counters of a family of the unknown zone.
    pub open spec fn unknown_series(&self, family: Family) -> Map<Seq<Seq<char>>, u64> {
        self.series(None, family)
    }

    /// All the counters: those of the unknown zone and those of the zones
    /// that have counters.
    pub open spec fn counts(&self) -> Counts {
        Map::new(
            |key: (Option<Seq<char>>, Family)|
                match key.0 {
                    None => true,
                    Some(label) => self.zones().contains(label),
                },
            |key: (Option<Seq<char>>, Family)| self.series(key.0, key.1),
        )
    }

    /// What a family of the unknown zone was made with.
    pub closed spec fn unknown_opts(&self, family: Family) -> FamilyOpts {
        self.unknown_zone_metrics.opts(family)
    }

    /// What holds of the metrics at all times: the registry holds the
    /// families of the unknown zone and of the zones of the table, and no
    /// others; it remembers the shape of each of the five families; the
    /// table holds for each zone the five families made for it; no zone of
    /// the table has the label of the unknown zone.
    pub closed spec fn wf(&self) -> bool {
        &&& self.unknown_zone_metrics.wf()
        &&& self.unknown_zone_metrics.label() == unknown_label()
        &&& !self.zones().contains(unknown_label())
        &&& forall|zone: Seq<char>| #[trigger]
            self.zones().contains(zone) ==> table_counters(self.zone_metrics)[zone].ids == expected_ids(zone)
                && table_counters(self.zone_metrics)[zone].series.len() == 5 && forall|i: int|
                0 <= i < 5 ==> single(#[trigger] table_counters(self.zone_metrics)[zone].series[i])
        &&& registry_ids(self.registry) == all_ids(self.zones())
        &&& dims_known(registry_dims(self.registry))
        &&& forall|zone: Seq<char>| #[trigger] self.zones().contains(zone) ==> distinct_ids(zone)
    }

    /// No family of the metrics holds two counters for label values that
    /// it cannot tell apart.
    pub proof fn lemma_single(&self, zone: Option<Seq<char>>, family: Family)
        requires
            self.wf(),
            self.counts().contains_key((zone, family)),
        ensures
            single(self.series(zone, family)),
    {
        match zone {
            None => {
                assert(single(counter_series(self.unknown_zone_metrics.vecs[family_index(family)])));
            },
            Some(label) => {
                assert(self.zones().contains(label));
                assert(single(table_counters(self.zone_metrics)[label].series[family_index(family)]));
            },
        }
    }

    /// States what the registry holds.
    pub proof fn lemma_registered(&self)
        requires
            self.wf(),
        ensures
            self.registered() == all_ids(self.zones()),
            !self.zones().contains(unknown_label()),
    {
    }

    /// New metrics, with the counters of the unknown zone and of no other.
    /// Every metric carries the label `instance_name` with the given value,
    /// and every metric name the prefix `cetus`.
    ///
    /// The registry is new: no number is taken in it, and it remembers no
    /// shape. So the making of the metrics fails only where the registry
    /// takes one of the five families of the unknown zone for another of
    /// them.
    pub fn new(instance_name: String) -> (out: Result<Metrics, MetricsError>)
        ensures
            out is Err <==> label_refused(Set::<u64>::empty(), unknown_label()),
            out matches Err(error) ==> error == MetricsError::Register,
            out matches Ok(metrics) ==> {
                &&& metrics.wf()
                &&& metrics.instance() == instance_name@
                &&& metrics.zones() == Set::<Seq<char>>::empty()
                &&& metrics.taken() == zone_taken(unknown_label(), 0, 5)
                &&& forall|i: int|
                    0 <= i < 5 ==> metrics.unknown_opts(#[trigger] family_at(i)) == family_opts(
                        family_at(i),
                        unknown_label(),
                    )
                &&& forall|i: int|
                    0 <= i < 5 ==> holds_all(
                        metrics.unknown_series(#[trigger] family_at(i)),
                        prefilled(family_at(i)),
                        prefilled(family_at(i)).len() as int,
                    ) && all_zero(metrics.unknown_series(family_at(i)))
                &&& metrics.unknown_series(Family::CountryQueries) == Map::<Seq<Seq<char>>, u64>::empty()
            },
    {
        proof {
            reveal_strlit("cetus");
        }
        let mut registry = new_registry("cetus", "instance_name", instance_name.clone());
        let ghost taken = registry_taken(registry);
        let ghost dims = registry_dims(registry);
        proof {
            assert(taken =~= Set::<u64>::empty());
            assert(dims =~= Map::<Seq<char>, u64>::empty());
            lemma_dims_after(dims, 5);
            assert forall|k: int| 0 <= k < 5 implies (#[trigger] refused_at(taken, dims, unknown_label(), k)
                <==> zone_taken(unknown_label(), 0, k).contains(zone_id(unknown_label(), family_at(k)))) by {
                lemma_family_names_differ();
                if dims_after(dims, k).contains_key(family_name(family_at(k))) {
                    lemma_dims_keys(dims, k, family_name(family_at(k)));
                }
                assert(family_at(k) == family_at(k));
            }
            if zone_refused(taken, dims, unknown_label()) {
                let k = choose|k: int| 0 <= k < 5 && #[trigger] refused_at(taken, dims, unknown_label(), k);
                assert(family_at(k) == family_at(k));
            }
            if label_refused(taken, unknown_label()) {
                let k = choose|k: int|
                    0 <= k < 5 && (taken.contains(zone_id(unknown_label(), #[trigger] family_at(k))) || zone_taken(
                        unknown_label(),
                        0,
                        k,
                    ).contains(zone_id(unknown_label(), family_at(k))));
                assert(refused_at(taken, dims, unknown_label(), k));
            }
        }
        let zone_metrics = new_table();
        let unknown_zone_metrics = match ZoneMetrics::register(None, &mut registry) {
            Ok(metrics) => metrics,
            Err(e) => {
                return Err(e);
            },
        };
        let out = Metrics { instance_name, registry, zone_metrics, unknown_zone_metrics };
        proof {
            assert(out.zones() =~= Set::<Seq<char>>::empty());
            assert(registry_ids(out.registry) =~= all_ids(out.zones()));
            assert(out.taken() =~= zone_taken(unknown_label(), 0, 5));
            assert(dims_known(registry_dims(out.registry)));
        }
        Ok(out)
    }

    /// Makes the counters of a zone, so that they show and can be moved:
    /// the counters that are to show from the start stand at 0, and the
    /// family of the countries has none. The counters of the other zones
    /// stay as they are.
    ///
    /// It fails with `MetricsError::Register`, and leaves everything as it
    /// was, exactly where the registry refuses one of the five families of
    /// the zone, as it does where the zone has counters already.
    pub fn register_zone(&mut self, zone: &DomainName) -> (out: Result<(), MetricsError>)
        requires
            old(self).wf(),
        ensures
            final(self).wf(),
            final(self).instance() == old(self).instance(),
            out is Err <==> label_refused(old(self).taken(), zone_label(Some(zone@))),
            out matches Err(error) ==> error == MetricsError::Register,
            old(self).zones().contains(zone_label(Some(zone@))) ==> out is Err,
            final(self).held() == spec_register_zone(old(self).held(), zone_label(Some(zone@))),
            out is Ok ==> !old(self).zones().contains(zone_label(Some(zone@))) && final(self).fresh(
                zone_label(Some(zone@)),
            ),
            out is Err ==> final(self).registered() == old(self).registered() && final(self).counts() == old(
                self,
            ).counts(),
            forall|other: Option<Seq<char>>, family: Family|
                other != Some(zone_label(Some(zone@))) ==> #[trigger] final(self).series(other, family) == old(
                    self,
                ).series(other, family),
    {
        let ghost label = zone_label(Some(zone@));
        let ghost zones = self.zones();
        let ghost table = table_counters(self.zone_metrics);
        proof {
            lemma_label_refused(registry_taken(self.registry), registry_dims(self.registry), label);
            lemma_dims_after(registry_dims(self.registry), 5);
        }
        let made = ZoneMetrics::register(Some(zone), &mut self.registry);
        match made {
            Err(e) => {
                proof {
                    assert(self.counts() =~= old(self).counts());
                }
                Err(e)
            },
            Ok(metrics) => {
                proof {
                    let first = (family_name(family_at(0)), label);
                    assert(family_ids(label).contains(first)) by {
                        assert(family_at(0) == family_at(0));
                    }
                    assert(!all_ids(zones).contains(first));
                    assert(zone_counters(metrics).series.len() == 5);
                    assert(zone_counters(metrics).ids == expected_ids(label));
                    assert forall|i: int| 0 <= i < 5 implies zone_counters(metrics).series[family_index(
                        #[trigger] family_at(i),
                    )] == metrics.series(family_at(i)) by {}
                }
                let key = zone.to_text();
                let _ = table_insert(&mut self.zone_metrics, key, metrics);
                proof {
                    assert(self.zones() =~= zones.insert(label));
                    assert(all_ids(zones).union(family_ids(label)) =~= all_ids(zones.insert(label)));
                    assert(family_index(Family::CountryQueries) == 4 && family_at(4) == Family::CountryQueries);
                }
                Ok(())
            },
        }
    }

    /// Takes the counters of a zone away, so that they show no longer; the
    /// numbers of its families are free again, so that the zone can get
    /// counters anew. The counters of the other zones stay as they are.
    /// Nothing happens where the zone has none.
    pub fn unregister_zone(&mut self, zone: &DomainName)
        requires
            old(self).wf(),
        ensures
            final(self).wf(),
            final(self).instance() == old(self).instance(),
            final(self).held() == spec_unregister_zone(old(self).held(), zone_label(Some(zone@))),
            old(self).zones().contains(zone_label(Some(zone@))) ==> !label_refused(
                final(self).taken(),
                zone_label(Some(zone@)),
            ),
            forall|other: Option<Seq<char>>, family: Family|
                other != Some(zone_label(Some(zone@))) ==> #[trigger] final(self).series(other, family) == old(
                    self,
                ).series(other, family),
    {
        let ghost label = zone_label(Some(zone@));
        let ghost zones = self.zones();
        let key = zone.to_text();
        match table_remove(&mut self.zone_metrics, key.as_str()) {
            Some(metrics) => {
                proof {
                    assert(zone_ids(metrics) == expected_ids(label));
                    assert(zone_ids(metrics).ids.len() == 5);
                    assert(zone_ids(metrics).ids[0] == expected_ids(label).ids[0]);
                    assert(metrics.label() == label);
                    assert(family_ids(label).subset_of(all_ids(zones)));
                    assert forall|i: int| 0 <= i < 5 implies single(counter_series(#[trigger] metrics.vecs[i])) by {
                        assert(zone_counters(metrics).series[i] == counter_series(metrics.vecs[i]));
                    }
                }
                metrics.unregister(&mut self.registry);
                proof {
                    assert(self.zones() =~= zones.remove(label));
                    assert(all_ids(zones).difference(family_ids(label)) =~= all_ids(zones.remove(label)));
                }
            },
            None => {
                assert(zones.remove(label) =~= zones);
                assert(self.zones() =~= zones);
                assert(table_counters(self.zone_metrics) =~= table_counters(old(self).zone_metrics));
            },
        }
    }

    /// Moves a counter of a zone by one. `false` where the zone has no
    /// counters, and nothing moves.
    fn bump_zone(&mut self, zone: &DomainName, family: Family, labels: &Vec<String>) -> (moved: bool)
        requires
            old(self).wf(),
            labels.len() == family_arity(family),
        ensures
            final(self).wf(),
            final(self).instance() == old(self).instance(),
            final(self).zones() == old(self).zones(),
            final(self).registered() == old(self).registered(),
            final(self).taken() == old(self).taken(),
            moved == old(self).zones().contains(zone_label(Some(zone@))),
            final(self).counts() == counted(
                old(self).counts(),
                (Some(zone_label(Some(zone@))), family),
                texts_view(*labels),
            ),
            forall|other: Family| final(self).unknown_series(other) == old(self).unknown_series(other),
    {
        let ghost label = zone_label(Some(zone@));
        let ghost table = table_counters(self.zone_metrics);
        let key = zone.to_text();
        match table_remove(&mut self.zone_metrics, key.as_str()) {
            Some(metrics) => {
                let mut metrics = metrics;
                let ghost before = metrics;
                proof {
                    assert(zone_ids(metrics) == expected_ids(label));
                    assert(zone_ids(metrics).ids.len() == 5);
                    assert(zone_ids(metrics).ids[0] == expected_ids(label).ids[0]);
                    assert(metrics.label() == label);
                    assert forall|i: int| 0 <= i < 5 implies single(counter_series(#[trigger] metrics.vecs[i])) by {
                        assert(zone_counters(metrics).series[i] == counter_series(metrics.vecs[i]));
                    }
                }
                metrics.bump(family, labels);
                proof {
                    assert(zone_ids(metrics) == expected_ids(label));
                    assert(zone_counters(metrics).series.len() == 5);
                    assert forall|other: Family| #[trigger]
                        zone_counters(metrics).series[family_index(other)] == (if other == family {
                            moved_series(table[label].series[family_index(family)], texts_view(*labels))
                        } else {
                            table[label].series[family_index(other)]
                        }) by {
                        assert(zone_counters(before).series[family_index(other)] == before.series(other));
                        assert(zone_counters(metrics).series[family_index(other)] == metrics.series(other));
                    }
                }
                let _ = table_insert(&mut self.zone_metrics, key, metrics);
                proof {
                    assert(table_counters(self.zone_metrics) =~= table.insert(label, zone_counters(metrics)));
                    assert(self.zones() =~= old(self).zones());
                    assert(self.counts() =~= counted(
                        old(self).counts(),
                        (Some(label), family),
                        texts_view(*labels),
                    ));
                }
                true
            },
            None => {
                proof {
                    assert(table_counters(self.zone_metrics) =~= table);
                    assert(self.counts() =~= old(self).counts());
                }
                false
            },
        }
    }

    /// Moves a counter of the unknown zone by one.
    fn bump_unknown(&mut self, family: Family, labels: &Vec<String>)
        requires
            old(self).wf(),
            labels.len() == family_arity(family),
        ensures
            final(self).wf(),
            final(self).instance() == old(self).instance(),
            final(self).zones() == old(self).zones(),
            final(self).registered() == old(self).registered(),
            final(self).taken() == old(self).taken(),
            final(self).counts() == counted(old(self).counts(), (None, family), texts_view(*labels)),
            count_at(final(self).unknown_series(family), texts_view(*labels)) == next_count(
                count_at(old(self).unknown_series(family), texts_view(*labels)),
            ),
            forall|other: Family| other != family ==> final(self).unknown_series(other) == old(self).unknown_series(
                other,
            ),
    {
        self.unknown_zone_metrics.bump(family, labels);
        proof {
            assert(self.counts() =~= counted(old(self).counts(), (None, family), texts_view(*labels)));
        }
    }

    /// Counts the record type of a query in a zone. `false` where the zone
    /// has no counters, and nothing moves.
    pub fn increment_zone_record_type(&mut self, zone: &DomainName, record_type: RecordType) -> (moved: bool)
        requires
            old(self).wf(),
        ensures
            final(self).wf(),
            final(self).instance() == old(self).instance(),
            final(self).zones() == old(self).zones(),
            final(self).registered() == old(self).registered(),
            final(self).taken() == old(self).taken(),
            moved == old(self).zones().contains(zone_label(Some(zone@))),
            final(self).counts() == counted(
                old(self).counts(),
                (Some(zone_label(Some(zone@))), Family::QueryType),
                seq![spec_type_text(type_code(record_type))],
            ),
    {
        self.bump_zone(zone, Family::QueryType, &one_label(record_type.text()))
    }

    /// Counts the record type of a query that lies in no zone.
    pub fn increment_unknown_zone_record_type(&mut self, record_type: RecordType)
        requires
            old(self).wf(),
        ensures
            final(self).wf(),
            final(self).instance() == old(self).instance(),
            final(self).zones() == old(self).zones(),
            final(self).counts() == counted(old(self).counts(), (None, Family::QueryType), seq![spec_type_text(type_code(record_type))]),
            count_at(final(self).unknown_series(Family::QueryType), seq![spec_type_text(type_code(record_type))])
                == next_count(
                count_at(old(self).unknown_series(Family::QueryType), seq![spec_type_text(type_code(record_type))]),
            ),
            forall|other: Family|
                other != Family::QueryType ==> final(self).unknown_series(other) == old(self).unknown_series(other),
    {
        self.bump_unknown(Family::QueryType, &one_label(record_type.text()));
    }

    /// Counts the response code of a reply in a zone. `false` where the
    /// zone has no counters, and nothing moves.
    pub fn increment_zone_response_code(&mut self, zone: &DomainName, response_code: ResponseCode) -> (moved: bool)
        requires
            old(self).wf(),
        ensures
            final(self).wf(),
            final(self).instance() == old(self).instance(),
            final(self).zones() == old(self).zones(),
            final(self).registered() == old(self).registered(),
            final(self).taken() == old(self).taken(),
            moved == old(self).zones().contains(zone_label(Some(zone@))),
            final(self).counts() == counted(
                old(self).counts(),
                (Some(zone_label(Some(zone@))), Family::ResponseCode),
                seq![response_code_text(response_code)],
            ),
    {
        self.bump_zone(zone, Family::ResponseCode, &one_label(text(response_code.label())))
    }

    /// Counts the response code of a reply to a query that lies in no zone.
    pub fn increment_unknown_zone_response_code(&mut self, response_code: ResponseCode)
        requires
            old(self).wf(),
        ensures
            final(self).wf(),
            final(self).instance() == old(self).instance(),
            final(self).zones() == old(self).zones(),
            final(self).counts() == counted(old(self).counts(), (None, Family::ResponseCode), seq![response_code_text(response_code)]),
            count_at(final(self).unknown_series(Family::ResponseCode), seq![response_code_text(response_code)]) == next_count(
                count_at(old(self).unknown_series(Family::ResponseCode), seq![response_code_text(response_code)]),
            ),
            forall|other: Family|
                other != Family::ResponseCode ==> final(self).unknown_series(other) == old(self).unknown_series(
                    other,
                ),
    {
        self.bump_unknown(Family::ResponseCode, &one_label(text(response_code.label())));
    }

    /// Counts the transport of a request in a zone. `false` where the zone
    /// has no counters, and nothing moves.
    pub fn increment_zone_connection_type(&mut self, zone: &DomainName, remote: IpVersion, proto: Protocol) -> (moved: bool)
        requires
            old(self).wf(),
        ensures
            final(self).wf(),
            final(self).instance() == old(self).instance(),
            final(self).zones() == old(self).zones(),
            final(self).registered() == old(self).registered(),
            final(self).taken() == old(self).taken(),
            moved == old(self).zones().contains(zone_label(Some(zone@))),
            final(self).counts() == counted(
                old(self).counts(),
                (Some(zone_label(Some(zone@))), Family::ConnectionTypes),
                seq![ip_version_text(remote), protocol_text(proto)],
            ),
    {
        self.bump_zone(zone, Family::ConnectionTypes, &two_labels(text(remote.label()), text(proto.label())))
    }

    /// Counts the transport of a request that lies in no zone.
    pub fn increment_unknown_zone_connection_type(&mut self, remote: IpVersion, proto: Protocol)
        requires
            old(self).wf(),
        ensures
            final(self).wf(),
            final(self).instance() == old(self).instance(),
            final(self).zones() == old(self).zones(),
            final(self).counts() == counted(old(self).counts(), (None, Family::ConnectionTypes), seq![ip_version_text(remote), protocol_text(proto)]),
            count_at(final(self).unknown_series(Family::ConnectionTypes), seq![ip_version_text(remote), protocol_text(proto)])
                == next_count(
                count_at(
                    old(self).unknown_series(Family::ConnectionTypes),
                    seq![ip_version_text(remote), protocol_text(proto)],
                ),
            ),
            forall|other: Family|
                other != Family::ConnectionTypes ==> final(self).unknown_series(other) == old(self).unknown_series(
                    other,
                ),
    {
        self.bump_unknown(Family::ConnectionTypes, &two_labels(text(remote.label()), text(proto.label())));
    }

    /// Counts the class of a query in a zone. `false` where the zone has no
    /// counters.
    pub fn increment_zone_query_class(&mut self, zone: &DomainName, class: DnsClass) -> (moved: bool)
        requires
            old(self).wf(),
        ensures
            final(self).wf(),
            final(self).instance() == old(self).instance(),
            final(self).zones() == old(self).zones(),
            final(self).registered() == old(self).registered(),
            final(self).taken() == old(self).taken(),
            moved == old(self).zones().contains(zone_label(Some(zone@))),
            final(self).counts() == counted(
                old(self).counts(),
                (Some(zone_label(Some(zone@))), Family::QueryClass),
                seq![class_text(class)],
            ),
    {
        self.bump_zone(zone, Family::QueryClass, &one_label(text(class.text())))
    }

    /// Counts the class of a query that lies in no zone.
    pub fn increment_unknown_zone_query_class(&mut self, class: DnsClass)
        requires
            old(self).wf(),
        ensures
            final(self).wf(),
            final(self).instance() == old(self).instance(),
            final(self).zones() == old(self).zones(),
            final(self).counts() == counted(old(self).counts(), (None, Family::QueryClass), seq![class_text(class)]),
            count_at(final(self).unknown_series(Family::QueryClass), seq![class_text(class)]) == next_count(
                count_at(old(self).unknown_series(Family::QueryClass), seq![class_text(class)]),
            ),
            forall|other: Family|
                other != Family::QueryClass ==> final(self).unknown_series(other) == old(self).unknown_series(
                    other,
                ),
    {
        self.bump_unknown(Family::QueryClass, &one_label(text(class.text())));
    }

    /// Counts the country of the sender of a query in a zone. `false` where
    /// the zone has no counters.
    pub fn increment_zone_country_query(&mut self, zone: &DomainName, country: &str) -> (moved: bool)
        requires
            old(self).wf(),
        ensures
            final(self).wf(),
            final(self).instance() == old(self).instance(),
            final(self).zones() == old(self).zones(),
            final(self).registered() == old(self).registered(),
            final(self).taken() == old(self).taken(),
            moved == old(self).zones().contains(zone_label(Some(zone@))),
            final(self).counts() == counted(
                old(self).counts(),
                (Some(zone_label(Some(zone@))), Family::CountryQueries),
                seq![country@],
            ),
    {
        self.bump_zone(zone, Family::CountryQueries, &one_label(text(country)))
    }

    /// Counts the country of the sender of a query that lies in no zone.
    pub fn increment_unknown_zone_country_query(&mut self, country: &str)
        requires
            old(self).wf(),
        ensures
            final(self).wf(),
            final(self).instance() == old(self).instance(),
            final(self).zones() == old(self).zones(),
            final(self).counts() == counted(old(self).counts(), (None, Family::CountryQueries), seq![country@]),
            count_at(final(self).unknown_series(Family::CountryQueries), seq![country@]) == next_count(
                count_at(old(self).unknown_series(Family::CountryQueries), seq![country@]),
            ),
            forall|other: Family|
                other != Family::CountryQueries ==> final(self).unknown_series(other) == old(self).unknown_series(
                    other,
                ),
    {
        self.bump_unknown(Family::CountryQueries, &one_label(text(country)));
    }

    /// Moves the counter that an update names, and no other. For the
    /// unknown zone the counter always moves; for a zone it moves where the
    /// zone has counters, and the result says whether it did.
    pub fn record(&mut self, update: &MetricUpdate) -> (moved: bool)
        requires
            old(self).wf(),
        ensures
            final(self).wf(),
            final(self).instance() == old(self).instance(),
            final(self).zones() == old(self).zones(),
            final(self).registered() == old(self).registered(),
            final(self).taken() == old(self).taken(),
            final(self).counts() == spec_record(old(self).counts(), update@),
            moved == old(self).counts().contains_key(update_key(update@)),
            match update_zone(update@) {
                None => {
                    &&& moved
                    &&& count_at(final(self).unknown_series(update_family(update@)), update_labels(update@)) == next_count(
                        count_at(old(self).unknown_series(update_family(update@)), update_labels(update@)),
                    )
                    &&& forall|other: Family|
                        other != update_family(update@) ==> final(self).unknown_series(other) == old(
                            self,
                        ).unknown_series(other)
                },
                Some(zone) => {
                    &&& moved == old(self).zones().contains(zone_label(Some(zone)))
                    &&& forall|family: Family| final(self).unknown_series(family) == old(self).unknown_series(family)
                },
            },
    {
        match update {
            MetricUpdate::ConnectionType { zone, ip_version, protocol } => {
                let labels = two_labels(text(ip_version.label()), text(protocol.label()));
                match zone {
                    Some(name) => self.bump_zone(name, Family::ConnectionTypes, &labels),
                    None => {
                        self.bump_unknown(Family::ConnectionTypes, &labels);
                        true
                    },
                }
            },
            MetricUpdate::RecordType { zone, record_type } => {
                let labels = one_label(record_type.text());
                match zone {
                    Some(name) => self.bump_zone(name, Family::QueryType, &labels),
                    None => {
                        self.bump_unknown(Family::QueryType, &labels);
                        true
                    },
                }
            },
            MetricUpdate::QueryClass { zone, class } => {
                let labels = one_label(text(class.text()));
                match zone {
                    Some(name) => self.bump_zone(name, Family::QueryClass, &labels),
                    None => {
                        self.bump_unknown(Family::QueryClass, &labels);
                        true
                    },
                }
            },
            MetricUpdate::Country { zone, country } => {
                let labels = one_label(text(country.as_str()));
                match zone {
                    Some(name) => self.bump_zone(name, Family::CountryQueries, &labels),
                    None => {
                        self.bump_unknown(Family::CountryQueries, &labels);
                        true
                    },
                }
            },
            MetricUpdate::ResponseCode { zone, code } => {
                let labels = one_label(text(code.label()));
                match zone {
                    Some(name) => self.bump_zone(name, Family::ResponseCode, &labels),
                    None => {
                        self.bump_unknown(Family::ResponseCode, &labels);
                        true
                    },
                }
            },
        }
    }

    /// The text that a scrape of the metrics gets: that of the counters as
    /// they stand, under the name of the instance.
    pub fn render(&self) -> (out: Vec<u8>)
        requires
            self.wf(),
        ensures
            out@ == spec_exposition(self.instance(), self.counts()),
    {
        exposition(self)
    }

    /// Moves the counters that the updates name, in their order: the
    /// counters are afterwards what `record` makes of them, update by
    /// update.
    ///
    /// A family of the unknown zone that no update names stays as it is.
    /// Where exactly one update names a family of the unknown zone, the
    /// counter that it names has moved by one.
    pub fn record_all(&mut self, updates: &Vec<MetricUpdate>)
        requires
            old(self).wf(),
        ensures
            final(self).wf(),
            final(self).instance() == old(self).instance(),
            final(self).zones() == old(self).zones(),
            final(self).registered() == old(self).registered(),
            final(self).taken() == old(self).taken(),
            final(self).counts() == spec_record_all(
                old(self).counts(),
                updates_view(*updates),
                updates.len() as int,
            ),
            forall|family: Family|
                unknown_hits(updates_view(*updates), family, updates.len() as int) == 0
                    ==> final(self).unknown_series(family) == old(self).unknown_series(family),
            forall|i: int|
                0 <= i < updates.len() && update_zone(#[trigger] updates_view(*updates)[i]) is None
                    && unknown_hits(
                    updates_view(*updates),
                    update_family(updates_view(*updates)[i]),
                    updates.len() as int,
                ) == 1 ==> count_at(final(self).unknown_series(update_family(updates_view(*updates)[i])), update_labels(
                    updates_view(*updates)[i],
                )) == next_count(
                    count_at(
                        old(self).unknown_series(update_family(updates_view(*updates)[i])),
                        update_labels(updates_view(*updates)[i]),
                    ),
                ),
    {
        let ghost all = updates_view(*updates);
        let mut k: usize = 0;
        while k < updates.len()
            invariant
                k <= updates.len(),
                all == updates_view(*updates),
                self.wf(),
                self.instance() == old(self).instance(),
                self.zones() == old(self).zones(),
                self.registered() == old(self).registered(),
                self.taken() == old(self).taken(),
                self.counts() == spec_record_all(old(self).counts(), all, k as int),
                forall|family: Family|
                    unknown_hits(all, family, k as int) == 0 ==> self.unknown_series(family) == old(
                        self,
                    ).unknown_series(family),
                forall|i: int|
                    0 <= i < k && update_zone(#[trigger] all[i]) is None && unknown_hits(
                        all,
                        update_family(all[i]),
                        k as int,
                    ) == 1 ==> count_at(self.unknown_series(update_family(all[i])), update_labels(all[i])) == next_count(
                        count_at(old(self).unknown_series(update_family(all[i])), update_labels(all[i])),
                    ),
            decreases updates.len() - k,
        {
            let ghost before = *self;
            assert(all[k as int] == updates[k as int]@);
            self.record(&updates[k]);
            proof {
                let here = all[k as int];
                assert forall|family: Family| unknown_hits(all, family, k as int + 1) == 0 implies self.unknown_series(
                    family,
                ) == old(self).unknown_series(family) by {
                    lemma_unknown_hits(all, family, k as int);
                    assert(unknown_hits(all, family, k as int) == 0);
                    assert(before.unknown_series(family) == old(self).unknown_series(family));
                }
                assert forall|i: int|
                    0 <= i < k + 1 && update_zone(#[trigger] all[i]) is None && unknown_hits(
                        all,
                        update_family(all[i]),
                        k as int + 1,
                    ) == 1 implies count_at(self.unknown_series(update_family(all[i])), update_labels(all[i])) == next_count(
                    count_at(old(self).unknown_series(update_family(all[i])), update_labels(all[i])),
                ) by {
                    let family = update_family(all[i]);
                    lemma_unknown_hits(all, family, k as int);
                    if i < k {
                        lemma_unknown_hits_at_least(all, family, i, k as int);
                        assert(unknown_hits(all, family, k as int) == 1);
                        assert(!(update_zone(here) is None && update_family(here) == family));
                        assert(self.unknown_series(family) == before.unknown_series(family));
                    } else {
                        assert(unknown_hits(all, family, k as int) == 0);
                        assert(before.unknown_series(family) == old(self).unknown_series(family));
                    }
                }
            }
            k = k + 1;
        }
    }
}

/// How many of the first `n` updates name the given family of the unknown
/// zone.
pub open spec fn unknown_hits(updates: Seq<UpdateView>, family: Family, n: int) -> int
    decreases n,
{
    if n <= 0 {
        0
    } else {
        unknown_hits(updates, family, n - 1) + if update_zone(updates[n - 1]) is None && update_family(
            updates[n - 1],
        ) == family {
            1int
        } else {
            0int
        }
    }
}

proof fn lemma_unknown_hits(updates: Seq<UpdateView>, family: Family, n: int)
    requires
        0 <= n,
    ensures
        0 <= unknown_hits(updates, family, n),
        unknown_hits(updates, family, n + 1) == unknown_hits(updates, family, n) + if update_zone(updates[n])
            is None && update_family(updates[n]) == family {
            1int
        } else {
            0int
        },
    decreases n,
{
    if n > 0 {
        lemma_unknown_hits(updates, family, n - 1);
    }
}

proof fn lemma_unknown_hits_at_least(updates: Seq<UpdateView>, family: Family, i: int, n: int)
    requires
        0 <= i < n,
        update_zone(updates[i]) is None,
        update_family(updates[i]) == family,
    ensures
        unknown_hits(updates, family, n) >= 1,
    decreases n,
{
    lemma_unknown_hits(updates, family, n - 1);
    if i < n - 1 {
        lemma_unknown_hits_at_least(updates, family, i, n - 1);
    }
}

} // verus!
