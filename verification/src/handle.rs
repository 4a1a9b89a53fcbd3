//! The query pipeline.
//!
//! Answering a request alternates between deciding and waiting for work
//! done elsewhere: finding the country of the sender, fetching records,
//! sending the reply. The pipeline is therefore written as a machine. It
//! is started with a request and yields a [`Step`]: the counters to move,
//! the work to do next, and the state to come back with when that work is
//! done.

use crate::cache::names_view;
use crate::cache::spec_find_authority;
use crate::cache::spec_refresh;
use crate::cache::AuthoritySnapshot;
use crate::message::authoritative_header;
use crate::message::error_response;
use crate::message::MessageType;
use crate::message::OpCode;
use crate::message::Request;
use crate::message::RequestView;
use crate::message::Response;
use crate::message::ResponseCode;
use crate::message::ResponseInfo;
use crate::message::ResponseView;
use crate::metrics::family_at;
use crate::metrics::count_at;
use crate::metrics::label_refused;
use crate::metrics::lemma_moved_series;
use crate::metrics::next_count;
use crate::metrics::single;
use crate::metrics::lemma_record_all_frame;
use crate::metrics::lemma_record_all_last;
use crate::metrics::moved_series;
use crate::metrics::names_counters;
use crate::metrics::response_code_text;
use crate::metrics::spec_record_all;
use crate::metrics::update_family;
use crate::metrics::update_key;
use crate::metrics::update_zone;
use crate::metrics::Counts;
use crate::metrics::spec_register_zone;
use crate::metrics::spec_unregister_zone;
use crate::metrics::updates_view;
use crate::metrics::zone_label;
use crate::metrics::Family;
use crate::metrics::Held;
use crate::metrics::MetricUpdate;
use crate::metrics::Metrics;
use crate::metrics::UpdateView;
use crate::name::DomainName;
use crate::name::NameView;
use crate::record::plain_records_view;
use crate::record::records_view;
use crate::record::with_name;
use crate::record::DnsClass;
use crate::record::Record;
use crate::record::RecordType;
use crate::record::RecordView;
use crate::record::StorageRecord;
use crate::storage::Storage;
use crate::storage::StorageError;
use vstd::prelude::*;

verus! {

/// Where a request came from, as far as it is known.
pub struct GeoInfo {
    /// The ISO code of the country.
    pub country: Option<String>,
    /// The code of the continent.
    pub continent: Option<String>,
}

/// The mathematical value of a [`GeoInfo`].
pub struct GeoView {
    pub country: Option<Seq<char>>,
    pub continent: Option<Seq<char>>,
}

/// The characters of a text that may be absent.
pub open spec fn text_view(text: Option<String>) -> Option<Seq<char>> {
    match text {
        Some(s) => Some(s@),
        None => None,
    }
}

impl View for GeoInfo {
    type V = GeoView;

    open spec fn view(&self) -> GeoView {
        GeoView { country: text_view(self.country), continent: text_view(self.continent) }
    }
}

/// The lookup of a sender's country failed.
#[derive(Debug, Clone, Copy, PartialEq, Eq, Structural)]
pub enum GeoError {
    LookupFailed,
}

/// What came back from the work that the last step asked for.
pub enum Event {
    /// The country of the sender.
    Geo(Result<GeoInfo, GeoError>),
    /// The records that the storage holds. `None` says that the name does
    /// not exist, an empty vector that it has no records of the type.
    Lookup(Result<Option<Vec<StorageRecord>>, StorageError>),
    /// What was sent, or `None` where sending failed.
    Sent(Option<ResponseInfo>),
}

/// The mathematical value of an [`Event`].
pub enum EventView {
    Geo(Result<GeoView, GeoError>),
    Lookup(Result<Option<Seq<RecordView>>, StorageError>),
    Sent(Option<ResponseInfo>),
}

/// The value of what a lookup gave.
pub open spec fn lookup_view(
    lookup: Result<Option<Vec<StorageRecord>>, StorageError>,
) -> Result<Option<Seq<RecordView>>, StorageError> {
    match lookup {
        Ok(Some(records)) => Ok(Some(records_view(records))),
        Ok(None) => Ok(None),
        Err(e) => Err(e),
    }
}

impl View for Event {
    type V = EventView;

    open spec fn view(&self) -> EventView {
        match *self {
            Event::Geo(Ok(info)) => EventView::Geo(Ok(info@)),
            Event::Geo(Err(e)) => EventView::Geo(Err(e)),
            Event::Lookup(lookup) => EventView::Lookup(lookup_view(lookup)),
            Event::Sent(info) => EventView::Sent(info),
        }
    }
}

/// How far the answering of a request has come.
pub enum State {
    /// The name lies in `zone`; the country of the sender is awaited.
    ZoneGeo { zone: DomainName },
    /// The name lies in no zone; the country of the sender is awaited.
    UnknownGeo,
    /// The SOA records of `zone` are awaited.
    Soa { zone: DomainName },
    /// The records asked for are awaited; `soas` are the SOA records of
    /// `zone`.
    Records { zone: DomainName, soas: Vec<StorageRecord> },
    /// The reply is on its way.
    Sending,
    /// The request is dealt with.
    Done,
}

/// The mathematical value of a [`State`].
pub enum StateView {
    ZoneGeo { zone: NameView },
    UnknownGeo,
    Soa { zone: NameView },
    Records { zone: NameView, soas: Seq<RecordView> },
    Sending,
    Done,
}

impl View for State {
    type V = StateView;

    open spec fn view(&self) -> StateView {
        match *self {
            State::ZoneGeo { zone } => StateView::ZoneGeo { zone: zone@ },
            State::UnknownGeo => StateView::UnknownGeo,
            State::Soa { zone } => StateView::Soa { zone: zone@ },
            State::Records { zone, soas } => StateView::Records { zone: zone@, soas: records_view(soas) },
            State::Sending => StateView::Sending,
            State::Done => StateView::Done,
        }
    }
}

/// The work to do next.
pub enum Action {
    /// Find the country of the sender of the request.
    LookupGeo,
    /// Fetch from the storage the records of `record_type` at `name` in
    /// `zone`.
    Lookup { name: DomainName, zone: DomainName, record_type: RecordType },
    /// Send the reply.
    Send(Response),
    /// Nothing is left to do; this is what to report of the request.
    Finish(ResponseInfo),
}

/// The mathematical value of an [`Action`].
pub enum ActionView {
    LookupGeo,
    Lookup { name: NameView, zone: NameView, record_type: RecordType },
    Send(ResponseView),
    Finish(ResponseInfo),
}

impl View for Action {
    type V = ActionView;

    open spec fn view(&self) -> ActionView {
        match *self {
            Action::LookupGeo => ActionView::LookupGeo,
            Action::Lookup { name, zone, record_type } => ActionView::Lookup {
                name: name@,
                zone: zone@,
                record_type,
            },
            Action::Send(response) => ActionView::Send(response@),
            Action::Finish(info) => ActionView::Finish(info),
        }
    }
}

/// One step of the pipeline: the counters to move, the work to do next, and
/// the state to resume with once it is done.
pub struct Step {
    pub state: State,
    pub updates: Vec<MetricUpdate>,
    pub action: Action,
}

/// The mathematical value of a [`Step`].
pub struct StepView {
    pub state: StateView,
    pub updates: Seq<UpdateView>,
    pub action: ActionView,
}

impl View for Step {
    type V = StepView;

    open spec fn view(&self) -> StepView {
        StepView { state: self.state@, updates: updates_view(self.updates), action: self.action@ }
    }
}

/// The step that sends an error reply with `code` and counts it for `zone`.
pub open spec fn spec_reply_error(request: RequestView, zone: Option<NameView>, code: ResponseCode) -> StepView {
    StepView {
        state: StateView::Sending,
        updates: seq![UpdateView::ResponseCode { zone, code }],
        action: ActionView::Send(error_response(request.header, code)),
    }
}

/// The first step for a request whose name lies in `zone`: the transport,
/// the record type and the class are counted for the zone, and the country
/// of the sender is asked for.
pub open spec fn spec_query_zone(request: RequestView, zone: NameView) -> StepView {
    StepView {
        state: StateView::ZoneGeo { zone },
        updates: seq![
            UpdateView::ConnectionType {
                zone: Some(zone),
                ip_version: request.ip_version,
                protocol: request.protocol,
            },
            UpdateView::RecordType { zone: Some(zone), record_type: request.query.query_type },
            UpdateView::QueryClass { zone: Some(zone), class: request.query.query_class },
        ],
        action: ActionView::LookupGeo,
    }
}

/// The first step for a request whose name lies in no zone: the class, the
/// transport and the record type are counted for the unknown zone, and the
/// country of the sender is asked for.
pub open spec fn spec_query_unknown_zone(request: RequestView) -> StepView {
    StepView {
        state: StateView::UnknownGeo,
        updates: seq![
            UpdateView::QueryClass { zone: None, class: request.query.query_class },
            UpdateView::ConnectionType {
                zone: None,
                ip_version: request.ip_version,
                protocol: request.protocol,
            },
            UpdateView::RecordType { zone: None, record_type: request.query.query_type },
        ],
        action: ActionView::LookupGeo,
    }
}

/// The first step for a request that is a query: any class but IN is
/// refused; a name in a known zone takes the path of that zone, any other
/// name the path of the unknown zone.
pub open spec fn spec_query(zones: Seq<NameView>, request: RequestView) -> StepView {
    if request.query.query_class != DnsClass::IN {
        spec_reply_error(request, None, ResponseCode::Refused)
    } else {
        match spec_find_authority(zones, request.query.name.labels) {
            Some(zone) => spec_query_zone(request, zone),
            None => spec_query_unknown_zone(request),
        }
    }
}

/// The first step for a request: a message that is itself a response, or
/// that asks for another operation than a query, is answered "not
/// implemented"; a query goes on as `spec_query` says.
pub open spec fn spec_handle_request(zones: Seq<NameView>, request: RequestView) -> StepView {
    if request.header.message_type == MessageType::Response {
        spec_reply_error(request, None, ResponseCode::NotImp)
    } else if request.header.op_code != OpCode::Query {
        spec_reply_error(request, None, ResponseCode::NotImp)
    } else {
        spec_query(zones, request)
    }
}

/// The updates that count a country, if one is known.
pub open spec fn country_updates(zone: Option<NameView>, country: Option<Seq<char>>) -> Seq<UpdateView> {
    match country {
        Some(c) => seq![UpdateView::Country { zone, country: c }],
        None => Seq::empty(),
    }
}

/// The step after the country of the sender came back, in a known zone: a
/// failure is answered "server failure"; else the country is counted and
/// the SOA records of the zone are asked for.
pub open spec fn spec_zone_geo(request: RequestView, zone: NameView, geo: Result<GeoView, GeoError>) -> StepView {
    match geo {
        Err(_) => spec_reply_error(request, Some(zone), ResponseCode::ServFail),
        Ok(info) => StepView {
            state: StateView::Soa { zone },
            updates: country_updates(Some(zone), info.country),
            action: ActionView::Lookup { name: zone, zone, record_type: RecordType::SOA },
        },
    }
}

/// The step after the country of the sender came back, outside every zone:
/// a failure is answered "server failure"; else the country is counted and
/// the query is refused.
pub open spec fn spec_unknown_geo(request: RequestView, geo: Result<GeoView, GeoError>) -> StepView {
    match geo {
        Err(_) => spec_reply_error(request, None, ResponseCode::ServFail),
        Ok(info) => StepView {
            state: StateView::Sending,
            updates: country_updates(None, info.country).push(
                UpdateView::ResponseCode { zone: None, code: ResponseCode::Refused },
            ),
            action: ActionView::Send(error_response(request.header, ResponseCode::Refused)),
        },
    }
}

/// The step after the SOA records came back: where the storage failed, has
/// no such name or holds no SOA record there, the answer is "server
/// failure"; else the records asked for are fetched.
pub open spec fn spec_zone_soa(
    request: RequestView,
    zone: NameView,
    lookup: Result<Option<Seq<RecordView>>, StorageError>,
) -> StepView {
    match lookup {
        Ok(Some(soas)) => if soas.len() == 0 {
            spec_reply_error(request, Some(zone), ResponseCode::ServFail)
        } else {
            StepView {
                state: StateView::Records { zone, soas },
                updates: Seq::empty(),
                action: ActionView::Lookup {
                    name: request.query.name,
                    zone,
                    record_type: request.query.query_type,
                },
            }
        },
        _ => spec_reply_error(request, Some(zone), ResponseCode::ServFail),
    }
}

/// The records of an answer section: those that were fetched, each under
/// the name of the query as the client wrote it.
pub open spec fn answer_section(records: Seq<RecordView>, original: NameView) -> Seq<RecordView> {
    Seq::new(records.len(), |i: int| with_name(records[i], original))
}

/// The authoritative reply to a request, from the SOA records of the zone
/// and what the storage holds for the name and type asked for.
///
/// | storage holds | answer | authority | code |
/// |---|---|---|---|
/// | no such name | empty | the SOA records | NXDomain |
/// | the name, no record of the type | empty | the SOA records | NoError |
/// | records | the records | empty | NoError |
pub open spec fn spec_compose(
    request: RequestView,
    soas: Seq<RecordView>,
    records: Option<Seq<RecordView>>,
) -> ResponseView {
    match records {
        None => ResponseView {
            header: authoritative_header(request.header, ResponseCode::NXDomain),
            answers: Seq::empty(),
            authority: soas,
            edns: request.edns,
        },
        Some(found) => if found.len() == 0 {
            ResponseView {
                header: authoritative_header(request.header, ResponseCode::NoError),
                answers: Seq::empty(),
                authority: soas,
                edns: request.edns,
            }
        } else {
            ResponseView {
                header: authoritative_header(request.header, ResponseCode::NoError),
                answers: answer_section(found, request.query.original),
                authority: Seq::empty(),
                edns: request.edns,
            }
        },
    }
}

/// The step after the records asked for came back: a failure of the storage
/// is answered "server failure"; else the authoritative reply is sent and
/// its code counted.
pub open spec fn spec_zone_records(
    request: RequestView,
    zone: NameView,
    soas: Seq<RecordView>,
    lookup: Result<Option<Seq<RecordView>>, StorageError>,
) -> StepView {
    match lookup {
        Err(_) => spec_reply_error(request, Some(zone), ResponseCode::ServFail),
        Ok(records) => {
            let response = spec_compose(request, soas, records);
            StepView {
                state: StateView::Sending,
                updates: seq![UpdateView::ResponseCode { zone: Some(zone), code: response.header.response_code }],
                action: ActionView::Send(response),
            }
        },
    }
}

/// The last step: what was sent is reported; where sending failed, the
/// header of the request is reported in its place.
pub open spec fn spec_sent(request: RequestView, sent: Option<ResponseInfo>) -> StepView {
    StepView {
        state: StateView::Done,
        updates: Seq::empty(),
        action: ActionView::Finish(
            match sent {
                Some(info) => info,
                None => ResponseInfo { header: request.header },
            },
        ),
    }
}

/// The step that follows `state` when `event` comes back, or `None` where
/// the event is not what the state waits for.
pub open spec fn spec_resume(state: StateView, request: RequestView, event: EventView) -> Option<StepView> {
    match (state, event) {
        (StateView::ZoneGeo { zone }, EventView::Geo(geo)) => Some(spec_zone_geo(request, zone, geo)),
        (StateView::UnknownGeo, EventView::Geo(geo)) => Some(spec_unknown_geo(request, geo)),
        (StateView::Soa { zone }, EventView::Lookup(lookup)) => Some(spec_zone_soa(request, zone, lookup)),
        (StateView::Records { zone, soas }, EventView::Lookup(lookup)) => Some(
            spec_zone_records(request, zone, soas, lookup),
        ),
        (StateView::Sending, EventView::Sent(sent)) => Some(spec_sent(request, sent)),
        _ => None,
    }
}

/// What came back from outside while one request was answered.
pub struct Outside {
    /// The country of the sender.
    pub geo: Result<GeoView, GeoError>,
    /// What the storage gave for the SOA records of the zone.
    pub soa: Result<Option<Seq<RecordView>>, StorageError>,
    /// What the storage gave for the name and type asked for.
    pub records: Result<Option<Seq<RecordView>>, StorageError>,
}

/// What answering one request comes to: the reply that is sent, and the
/// counters moved on the way, in their order.
pub struct Outcome {
    pub response: ResponseView,
    pub updates: Seq<UpdateView>,
}

/// The step that follows `step` when the work it asks for gives what
/// `outside` says. `None` where the step asks for no such work.
pub open spec fn spec_feed(step: StepView, request: RequestView, outside: Outside) -> Option<StepView> {
    match step.action {
        ActionView::LookupGeo => spec_resume(step.state, request, EventView::Geo(outside.geo)),
        ActionView::Lookup { .. } => match step.state {
            StateView::Soa { .. } => spec_resume(step.state, request, EventView::Lookup(outside.soa)),
            StateView::Records { .. } => spec_resume(step.state, request, EventView::Lookup(outside.records)),
            _ => None,
        },
        _ => None,
    }
}

/// The outcome of going on from `step` for at most `fuel` more steps, until
/// a reply is sent.
pub open spec fn spec_run(step: StepView, request: RequestView, outside: Outside, fuel: nat) -> Option<Outcome>
    decreases fuel,
{
    match step.action {
        ActionView::Send(response) => Some(Outcome { response, updates: step.updates }),
        _ => if fuel == 0 {
            None
        } else {
            match spec_feed(step, request, outside) {
                Some(next) => match spec_run(next, request, outside, (fuel - 1) as nat) {
                    Some(rest) => Some(
                        Outcome { response: rest.response, updates: step.updates + rest.updates },
                    ),
                    None => None,
                },
                None => None,
            }
        },
    }
}

/// The outcome of answering `request` over the zones `zones`, when the work
/// done outside gives what `outside` says. Three rounds of outside work are
/// the most that any request takes.
pub open spec fn spec_outcome(zones: Seq<NameView>, request: RequestView, outside: Outside) -> Option<Outcome> {
    spec_run(spec_handle_request(zones, request), request, outside, 3)
}

/// A request that is a query: a message that asks, for the operation
/// "query".
pub open spec fn is_query(request: RequestView) -> bool {
    request.header.message_type == MessageType::Query && request.header.op_code == OpCode::Query
}

/// A reply that reports an error: "not implemented", "refused" or "server
/// failure".
pub open spec fn is_error_reply(response: ResponseView) -> bool {
    ||| response.header.response_code == ResponseCode::NotImp
    ||| response.header.response_code == ResponseCode::Refused
    ||| response.header.response_code == ResponseCode::ServFail
}

/// Every request is answered, whatever comes back from outside.
pub proof fn lemma_always_answered(zones: Seq<NameView>, request: RequestView, outside: Outside)
    ensures
        spec_outcome(zones, request, outside) is Some,
{
    reveal_with_fuel(spec_run, 4);
}

/// A message that is no query is answered "not implemented", with empty
/// sections, and that is counted for the unknown zone and nowhere else.
pub proof fn lemma_not_a_query(zones: Seq<NameView>, request: RequestView, outside: Outside)
    requires
        !is_query(request),
    ensures
        spec_outcome(zones, request, outside) matches Some(outcome) && {
            &&& outcome.response == error_response(request.header, ResponseCode::NotImp)
            &&& outcome.updates == seq![UpdateView::ResponseCode { zone: None, code: ResponseCode::NotImp }]
        },
{
    reveal_with_fuel(spec_run, 4);
}

/// A query for any class but IN is refused, and the reply carries no
/// answer records. That is counted for the unknown zone and nowhere else.
pub proof fn lemma_other_class_refused(zones: Seq<NameView>, request: RequestView, outside: Outside)
    requires
        is_query(request),
        request.query.query_class != DnsClass::IN,
    ensures
        spec_outcome(zones, request, outside) matches Some(outcome) && {
            &&& outcome.response.header.response_code == ResponseCode::Refused
            &&& outcome.response.answers.len() == 0
            &&& outcome.response == error_response(request.header, ResponseCode::Refused)
            &&& outcome.updates == seq![UpdateView::ResponseCode { zone: None, code: ResponseCode::Refused }]
        },
{
    reveal_with_fuel(spec_run, 4);
}

/// A query for a name outside every known zone is refused, if the country
/// of the sender can be looked up. On the way the counter of refused
/// replies of the unknown zone moves by exactly one, and no counter of any
/// zone moves at all.
pub proof fn lemma_unknown_zone_refused(zones: Seq<NameView>, request: RequestView, outside: Outside)
    requires
        is_query(request),
        request.query.query_class == DnsClass::IN,
        spec_find_authority(zones, request.query.name.labels) is None,
        outside.geo is Ok,
    ensures
        spec_outcome(zones, request, outside) matches Some(outcome) && {
            &&& outcome.response == error_response(request.header, ResponseCode::Refused)
            &&& crate::metrics::count_update(
                outcome.updates,
                UpdateView::ResponseCode { zone: None, code: ResponseCode::Refused },
                outcome.updates.len() as int,
            ) == 1
            &&& forall|i: int|
                0 <= i < outcome.updates.len() ==> crate::metrics::update_zone(#[trigger] outcome.updates[i])
                    is None
        },
{
    reveal_with_fuel(spec_run, 4);
    reveal_with_fuel(crate::metrics::count_update, 6);
    let outcome = spec_outcome(zones, request, outside).unwrap();
    let first = spec_query_unknown_zone(request);
    let second = spec_unknown_geo(request, outside.geo);
    assert(outcome.updates =~= first.updates + second.updates);
    let refused = UpdateView::ResponseCode { zone: None, code: ResponseCode::Refused };
    match outside.geo->Ok_0.country {
        Some(c) => {
            assert(second.updates =~= seq![UpdateView::Country { zone: None, country: c }, refused]);
            assert(outcome.updates.len() == 5);
        },
        None => {
            assert(second.updates =~= seq![refused]);
            assert(outcome.updates.len() == 4);
        },
    }
}

/// Of the updates of a refused query outside every known zone exactly one
/// names the response codes of the unknown zone, and it is the last and
/// names the refused replies. So `Metrics::record_all`, handed these
/// updates, moves the counter of the refused replies of the unknown zone by
/// exactly one.
pub proof fn lemma_unknown_zone_counter(zones: Seq<NameView>, request: RequestView, outside: Outside)
    requires
        is_query(request),
        request.query.query_class == DnsClass::IN,
        spec_find_authority(zones, request.query.name.labels) is None,
        outside.geo is Ok,
    ensures
        spec_outcome(zones, request, outside) matches Some(outcome) && {
            &&& outcome.updates.len() > 0
            &&& outcome.updates.last() == (UpdateView::ResponseCode { zone: None, code: ResponseCode::Refused })
            &&& crate::metrics::unknown_hits(
                outcome.updates,
                Family::ResponseCode,
                outcome.updates.len() as int,
            ) == 1
        },
{
    reveal_with_fuel(spec_run, 4);
    reveal_with_fuel(crate::metrics::unknown_hits, 6);
    let outcome = spec_outcome(zones, request, outside).unwrap();
    let first = spec_query_unknown_zone(request);
    let second = spec_unknown_geo(request, outside.geo);
    assert(outcome.updates =~= first.updates + second.updates);
    let refused = UpdateView::ResponseCode { zone: None, code: ResponseCode::Refused };
    match outside.geo->Ok_0.country {
        Some(c) => {
            assert(second.updates =~= seq![UpdateView::Country { zone: None, country: c }, refused]);
            assert(outcome.updates.len() == 5);
        },
        None => {
            assert(second.updates =~= seq![refused]);
            assert(outcome.updates.len() == 4);
        },
    }
}

/// A query for a name outside every known zone whose sender's country
/// cannot be looked up is answered "server failure", and that is counted
/// for the unknown zone.
pub proof fn lemma_unknown_zone_geo_failure(zones: Seq<NameView>, request: RequestView, outside: Outside)
    requires
        is_query(request),
        request.query.query_class == DnsClass::IN,
        spec_find_authority(zones, request.query.name.labels) is None,
        outside.geo is Err,
    ensures
        spec_outcome(zones, request, outside) matches Some(outcome) && {
            &&& outcome.response == error_response(request.header, ResponseCode::ServFail)
            &&& outcome.updates.last() == (UpdateView::ResponseCode { zone: None, code: ResponseCode::ServFail })
        },
{
    reveal_with_fuel(spec_run, 4);
}

/// Whether a query is answered from its zone: it asks for class IN, its
/// name lies in a known zone, the country of the sender was found, the zone
/// has SOA records, and the storage gave an answer for the name.
pub open spec fn answered_from_zone(zones: Seq<NameView>, request: RequestView, outside: Outside) -> bool {
    &&& is_query(request)
    &&& request.query.query_class == DnsClass::IN
    &&& spec_find_authority(zones, request.query.name.labels) is Some
    &&& outside.geo is Ok
    &&& outside.soa matches Ok(Some(soas)) && soas.len() > 0
    &&& outside.records is Ok
}

/// A query that is answered from its zone gets the reply that the table of
/// `spec_compose` gives, made from the zone's SOA records and the records
/// that the storage gave; its code is counted for the zone.
pub proof fn lemma_zone_answer(zones: Seq<NameView>, request: RequestView, outside: Outside)
    requires
        answered_from_zone(zones, request, outside),
    ensures
        spec_outcome(zones, request, outside) matches Some(outcome) && {
            &&& outcome.response == spec_compose(request, outside.soa->Ok_0->Some_0, outside.records->Ok_0)
            &&& outcome.updates.last() == (UpdateView::ResponseCode {
                zone: spec_find_authority(zones, request.query.name.labels),
                code: outcome.response.header.response_code,
            })
        },
{
    reveal_with_fuel(spec_run, 4);
}

/// A query in a known zone that is not answered from the zone, because the
/// country of the sender was not found, the zone has no SOA record or the
/// storage failed, is answered "server failure", and that is counted for
/// the zone.
pub proof fn lemma_zone_failure(zones: Seq<NameView>, request: RequestView, outside: Outside)
    requires
        is_query(request),
        request.query.query_class == DnsClass::IN,
        spec_find_authority(zones, request.query.name.labels) is Some,
        !answered_from_zone(zones, request, outside),
    ensures
        spec_outcome(zones, request, outside) matches Some(outcome) && {
            &&& outcome.response == error_response(request.header, ResponseCode::ServFail)
            &&& outcome.updates.last() == (UpdateView::ResponseCode {
                zone: spec_find_authority(zones, request.query.name.labels),
                code: ResponseCode::ServFail,
            })
        },
{
    reveal_with_fuel(spec_run, 4);
}

/// The zone that the counters of a request are counted for: the zone that a
/// query of class IN lies in, and the unknown zone for every other request.
pub open spec fn counted_zone(zones: Seq<NameView>, request: RequestView) -> Option<NameView> {
    if is_query(request) && request.query.query_class == DnsClass::IN {
        spec_find_authority(zones, request.query.name.labels)
    } else {
        None
    }
}

/// Every update of a request names the zone that the request is counted
/// for. The last of them names the code of the reply, and no other names a
/// response code.
pub proof fn lemma_updates_shape(zones: Seq<NameView>, request: RequestView, outside: Outside)
    ensures
        spec_outcome(zones, request, outside) matches Some(outcome) && {
            &&& outcome.updates.len() > 0
            &&& outcome.updates.last() == (UpdateView::ResponseCode {
                zone: counted_zone(zones, request),
                code: outcome.response.header.response_code,
            })
            &&& forall|i: int|
                0 <= i < outcome.updates.len() ==> update_zone(#[trigger] outcome.updates[i]) == counted_zone(
                    zones,
                    request,
                )
            &&& forall|i: int|
                0 <= i < outcome.updates.len() - 1 ==> update_family(#[trigger] outcome.updates[i])
                    != Family::ResponseCode
        },
{
    reveal_with_fuel(spec_run, 4);
}

/// A request moves no counter of a zone other than the one it is counted
/// for: a query outside every zone moves no counter of any zone.
pub proof fn lemma_other_zones_untouched(
    zones: Seq<NameView>,
    request: RequestView,
    outside: Outside,
    counts: Counts,
    label: Seq<char>,
    family: Family,
)
    requires
        counted_zone(zones, request) matches Some(zone) ==> label != zone_label(Some(zone)),
    ensures
        spec_outcome(zones, request, outside) matches Some(outcome) && {
            let after = spec_record_all(counts, outcome.updates, outcome.updates.len() as int);
            &&& after.contains_key((Some(label), family)) == counts.contains_key((Some(label), family))
            &&& after[(Some(label), family)] == counts[(Some(label), family)]
        },
{
    lemma_updates_shape(zones, request, outside);
    let outcome = spec_outcome(zones, request, outside).unwrap();
    let key = (Some(label), family);
    if names_counters(outcome.updates, key, outcome.updates.len() as int) {
        let i = choose|i: int| 0 <= i < outcome.updates.len() && update_key(#[trigger] outcome.updates[i]) == key;
        assert(update_zone(outcome.updates[i]) == counted_zone(zones, request));
    }
    lemma_record_all_frame(counts, outcome.updates, outcome.updates.len() as int, key);
}

/// The code of the reply is counted once: where the zone that the request
/// is counted for has counters, its counter for that code has moved by one,
/// and no other of its counters of response codes has. So a query in a
/// zone that the storage fails on counts one "server failure" for the zone.
pub proof fn lemma_code_counted_once(zones: Seq<NameView>, request: RequestView, outside: Outside, counts: Counts)
    requires
        counts.contains_key(
            (
                match counted_zone(zones, request) {
                    Some(zone) => Some(zone_label(Some(zone))),
                    None => None,
                },
                Family::ResponseCode,
            ),
        ),
    ensures
        spec_outcome(zones, request, outside) matches Some(outcome) && {
            let key = (
                match counted_zone(zones, request) {
                    Some(zone) => Some(zone_label(Some(zone))),
                    None => None,
                },
                Family::ResponseCode,
            );
            let after = spec_record_all(counts, outcome.updates, outcome.updates.len() as int)[key];
            let labels = seq![response_code_text(outcome.response.header.response_code)];
            &&& after == moved_series(counts[key], labels)
            &&& single(counts[key]) ==> count_at(after, labels) == next_count(count_at(counts[key], labels))
        },
{
    lemma_updates_shape(zones, request, outside);
    let outcome = spec_outcome(zones, request, outside).unwrap();
    let key = update_key(outcome.updates.last());
    if single(counts[key]) {
        lemma_moved_series(counts[key], seq![response_code_text(outcome.response.header.response_code)]);
    }
    if names_counters(outcome.updates, key, outcome.updates.len() - 1) {
        let i = choose|i: int|
            0 <= i < outcome.updates.len() - 1 && update_key(#[trigger] outcome.updates[i]) == key;
        assert(update_family(outcome.updates[i]) != Family::ResponseCode);
    }
    lemma_record_all_last(counts, outcome.updates);
}

/// Every reply is a response. A reply made from a zone's records claims
/// authority; an error reply never does, and carries no record.
pub proof fn lemma_authority_flag(zones: Seq<NameView>, request: RequestView, outside: Outside)
    ensures
        spec_outcome(zones, request, outside) matches Some(outcome) && {
            &&& outcome.response.header.message_type == MessageType::Response
            &&& answered_from_zone(zones, request, outside) ==> outcome.response.header.authoritative
                && !is_error_reply(outcome.response)
            &&& !answered_from_zone(zones, request, outside) ==> !outcome.response.header.authoritative
                && is_error_reply(outcome.response) && outcome.response.answers.len() == 0
                && outcome.response.authority.len() == 0
            &&& is_error_reply(outcome.response) ==> !outcome.response.header.authoritative
        },
{
    reveal_with_fuel(spec_run, 4);
    if answered_from_zone(zones, request, outside) {
        lemma_zone_answer(zones, request, outside);
    } else if !is_query(request) {
        lemma_not_a_query(zones, request, outside);
    } else if request.query.query_class != DnsClass::IN {
        lemma_other_class_refused(zones, request, outside);
    } else if spec_find_authority(zones, request.query.name.labels) is Some {
        lemma_zone_failure(zones, request, outside);
    } else if outside.geo is Ok {
        lemma_unknown_zone_refused(zones, request, outside);
    } else {
        lemma_unknown_zone_geo_failure(zones, request, outside);
    }
}

/// Every answer record of every reply has the name of the query as the
/// client wrote it for its owner.
pub proof fn lemma_answers_keep_case(zones: Seq<NameView>, request: RequestView, outside: Outside)
    ensures
        spec_outcome(zones, request, outside) matches Some(outcome) && forall|i: int|
            0 <= i < outcome.response.answers.len() ==> (#[trigger] outcome.response.answers[i]).name
                == request.query.original,
{
    lemma_authority_flag(zones, request, outside);
    if answered_from_zone(zones, request, outside) {
        lemma_zone_answer(zones, request, outside);
    }
}

/// The three answers of the storage give the three replies of the table:
/// no such name gives NXDomain with the SOA records in the authority
/// section; a name without records of the type gives NoError with the SOA
/// records there; records give NoError with the records, renamed to the
/// query's own spelling, in the answer section and an empty authority
/// section.
pub proof fn lemma_tri_state(request: RequestView, soas: Seq<RecordView>, records: Option<Seq<RecordView>>)
    ensures
        ({
            let response = spec_compose(request, soas, records);
            &&& response.header.authoritative
            &&& response.header.message_type == MessageType::Response
            &&& response.edns == request.edns
            &&& records is None ==> {
                &&& response.header.response_code == ResponseCode::NXDomain
                &&& response.answers.len() == 0
                &&& response.authority == soas
            }
            &&& records matches Some(found) ==> found.len() == 0 ==> {
                &&& response.header.response_code == ResponseCode::NoError
                &&& response.answers.len() == 0
                &&& response.authority == soas
            }
            &&& records matches Some(found) ==> found.len() > 0 ==> {
                &&& response.header.response_code == ResponseCode::NoError
                &&& response.answers.len() == found.len()
                &&& forall|i: int|
                    0 <= i < found.len() ==> #[trigger] response.answers[i] == with_name(
                        found[i],
                        request.query.original,
                    )
                &&& response.authority.len() == 0
            }
        }),
{
}

/// What comes back from outside while a query in `zone` is answered from a
/// store that does not fail: the country of the sender, and what the store
/// holds for the SOA records of the zone and for the name and type asked
/// for.
pub open spec fn outside_of_store(
    store: crate::storage::StoreView,
    zone: NameView,
    request: RequestView,
    geo: Result<GeoView, GeoError>,
) -> Outside {
    Outside {
        geo,
        soa: Ok(
            crate::storage::spec_lookup(
                store,
                crate::name::lower_labels(zone.labels),
                crate::name::lower_labels(zone.labels),
                RecordType::SOA,
            ),
        ),
        records: Ok(
            crate::storage::spec_lookup(
                store,
                crate::name::lower_labels(zone.labels),
                crate::name::lower_labels(request.query.name.labels),
                request.query.query_type,
            ),
        ),
    }
}

/// A query for class IN in a known zone, answered from a store that does
/// not fail and that holds an SOA record at the apex of the zone, gets the
/// reply of the table for what the store holds at the name: NXDomain where
/// the store holds nothing at the name, NoError without answers where it
/// holds no record of the type, the records of the type else. Every record
/// of the answer is of the type asked for and under the name as the client
/// wrote it.
pub proof fn lemma_answer_from_store(
    zones: Seq<NameView>,
    request: RequestView,
    store: crate::storage::StoreView,
    geo: GeoView,
)
    requires
        is_query(request),
        request.query.query_class == DnsClass::IN,
        spec_find_authority(zones, request.query.name.labels) is Some,
        ({
            let zone = spec_find_authority(zones, request.query.name.labels)->Some_0;
            crate::storage::spec_lookup(
                store,
                crate::name::lower_labels(zone.labels),
                crate::name::lower_labels(zone.labels),
                RecordType::SOA,
            ) matches Some(soas) && soas.len() > 0
        }),
    ensures
        ({
            let zone = spec_find_authority(zones, request.query.name.labels)->Some_0;
            let outside = outside_of_store(store, zone, request, Ok(geo));
            let held = outside.records->Ok_0;
            &&& spec_outcome(zones, request, outside) matches Some(outcome) && {
                &&& outcome.response == spec_compose(request, outside.soa->Ok_0->Some_0, held)
                &&& outcome.response.header.authoritative
                &&& held is None <==> outcome.response.header.response_code == ResponseCode::NXDomain
                &&& held is Some <==> outcome.response.header.response_code == ResponseCode::NoError
                &&& forall|i: int|
                    0 <= i < outcome.response.answers.len() ==> (#[trigger] outcome.response.answers[i]).rr_type
                        == request.query.query_type && outcome.response.answers[i].name == request.query.original
            }
        }),
{
    let zone = spec_find_authority(zones, request.query.name.labels)->Some_0;
    let outside = outside_of_store(store, zone, request, Ok(geo));
    lemma_zone_answer(zones, request, outside);
    let outcome = spec_outcome(zones, request, outside)->Some_0;
    match outside.records->Ok_0 {
        Some(found) => {
            let at = crate::storage::records_at(
                store.log,
                crate::name::lower_labels(zone.labels),
                crate::name::lower_labels(request.query.name.labels),
            );
            crate::storage::lemma_of_type(at, request.query.query_type);
            assert forall|i: int| 0 <= i < outcome.response.answers.len() implies (
            #[trigger] outcome.response.answers[i]).rr_type == request.query.query_type
                && outcome.response.answers[i].name == request.query.original by {
                assert(found[i].rr_type == request.query.query_type);
            }
        },
        None => {},
    }
}

fn one_update(update: MetricUpdate) -> (out: Vec<MetricUpdate>)
    ensures
        updates_view(out) == seq![update@],
{
    let mut out: Vec<MetricUpdate> = Vec::new();
    out.push(update);
    assert(updates_view(out) =~= seq![update@]);
    out
}

fn no_updates() -> (out: Vec<MetricUpdate>)
    ensures
        updates_view(out) == Seq::<UpdateView>::empty(),
{
    let out: Vec<MetricUpdate> = Vec::new();
    assert(updates_view(out) =~= Seq::<UpdateView>::empty());
    out
}

fn copy_zone(zone: &Option<DomainName>) -> (out: Option<DomainName>)
    ensures
        crate::metrics::zone_view(out) == crate::metrics::zone_view(*zone),
{
    match zone {
        Some(name) => Some(name.clone()),
        None => None,
    }
}

fn count_country(zone: &Option<DomainName>, country: Option<String>) -> (out: Vec<MetricUpdate>)
    ensures
        updates_view(out) == country_updates(crate::metrics::zone_view(*zone), text_view(country)),
{
    match country {
        Some(c) => one_update(MetricUpdate::Country { zone: copy_zone(zone), country: c }),
        None => no_updates(),
    }
}

fn plain_records(records: &Vec<StorageRecord>) -> (out: Vec<Record>)
    ensures
        plain_records_view(out) == records_view(*records),
{
    let mut out: Vec<Record> = Vec::new();
    let mut i: usize = 0;
    while i < records.len()
        invariant
            i <= records.len(),
            out.len() == i,
            forall|k: int| 0 <= k < i ==> (#[trigger] out[k])@ == records[k]@,
        decreases records.len() - i,
    {
        out.push(records[i].as_record().clone());
        i = i + 1;
    }
    assert(plain_records_view(out) =~= records_view(*records));
    out
}

fn renamed_records(records: Vec<StorageRecord>, original: &DomainName) -> (out: Vec<Record>)
    ensures
        plain_records_view(out) == answer_section(records_view(records), original@),
{
    let ghost before = records_view(records);
    let count = records.len();
    let mut records = records;
    // The records are renamed where they are: they belong to this call alone.
    let mut reversed: Vec<StorageRecord> = Vec::new();
    while records.len() > 0
        invariant
            reversed.len() + records.len() == count,
            count == before.len(),
            forall|k: int| 0 <= k < records.len() ==> (#[trigger] records[k])@ == before[k],
            forall|k: int| 0 <= k < reversed.len() ==> (#[trigger] reversed[k])@ == before[count - 1 - k],
        decreases records.len(),
    {
        let last = records.pop().unwrap();
        reversed.push(last);
    }
    let mut out: Vec<Record> = Vec::new();
    while reversed.len() > 0
        invariant
            out.len() + reversed.len() == count,
            count == before.len(),
            forall|k: int| 0 <= k < reversed.len() ==> (#[trigger] reversed[k])@ == before[count - 1 - k],
            forall|k: int| 0 <= k < out.len() ==> (#[trigger] out[k])@ == with_name(before[k], original@),
        decreases reversed.len(),
    {
        let mut stored = reversed.pop().unwrap();
        assert(stored@ == before[out.len() as int]);
        stored.as_mut_record().set_name(original.clone());
        out.push(stored.record);
    }
    assert(plain_records_view(out) =~= answer_section(before, original@));
    out
}

/// The handler of DNS requests. It holds the snapshot of the zones that the
/// server answers for.
pub struct DnsHandler {
    zone_cache: AuthoritySnapshot,
}

impl View for DnsHandler {
    type V = Seq<NameView>;

    closed spec fn view(&self) -> Seq<NameView> {
        self.zone_cache@
    }
}

impl DnsHandler {
    /// A handler that knows no zone yet: until the first refresh it refuses
    /// every query.
    pub fn new() -> (out: DnsHandler)
        ensures
            out@ == Seq::<NameView>::empty(),
    {
        DnsHandler { zone_cache: AuthoritySnapshot::new() }
    }

    /// A handler for the zones of a snapshot.
    pub fn with_zones(zone_cache: AuthoritySnapshot) -> (out: DnsHandler)
        ensures
            out@ == zone_cache@,
    {
        DnsHandler { zone_cache }
    }

    /// The current snapshot of the zones.
    pub fn zone_list(&self) -> (out: &AuthoritySnapshot)
        ensures
            out@ == self@,
    {
        &self.zone_cache
    }

    /// Replaces the snapshot of the zones as a whole.
    pub fn publish(&mut self, zone_cache: AuthoritySnapshot)
        ensures
            final(self)@ == zone_cache@,
    {
        self.zone_cache = zone_cache;
    }

    /// The zone that answers for the name of a query, if there is one.
    pub fn find_authority(&self, query: &crate::message::Query) -> (out: Option<DomainName>)
        ensures
            match spec_find_authority(self@, query@.name.labels) {
                Some(zone) => out matches Some(found) && found@ == zone,
                None => out is None,
            },
    {
        self.zone_cache.find_authority(query.name())
    }

    /// The step that sends an error reply with `code` and counts it for
    /// `zone`.
    pub fn reply_error(request: &Request, zone: Option<DomainName>, code: ResponseCode) -> (out: Step)
        ensures
            out@ == spec_reply_error(request@, crate::metrics::zone_view(zone), code),
    {
        Step {
            state: State::Sending,
            updates: one_update(MetricUpdate::ResponseCode { zone, code }),
            action: Action::Send(Response::error(&request.header, code)),
        }
    }

    /// Takes up a request: answers at once what is no query, and starts a
    /// query on its path.
    pub fn handle_request(&self, request: &Request) -> (out: Step)
        ensures
            out@ == spec_handle_request(self@, request@),
    {
        match request.header.message_type {
            MessageType::Query => {},
            MessageType::Response => {
                return DnsHandler::reply_error(request, None, ResponseCode::NotImp);
            },
        }
        match request.header.op_code {
            OpCode::Query => self.query(request),
            OpCode::Status | OpCode::Notify | OpCode::Update => DnsHandler::reply_error(
                request,
                None,
                ResponseCode::NotImp,
            ),
        }
    }

    /// Starts a query: refuses every class but IN, and sends the query down
    /// the path of its zone, or of the unknown zone.
    pub fn query(&self, request: &Request) -> (out: Step)
        ensures
            out@ == spec_query(self@, request@),
    {
        match request.query.query_class() {
            DnsClass::IN => {},
            _ => {
                return DnsHandler::reply_error(request, None, ResponseCode::Refused);
            },
        }
        match self.find_authority(&request.query) {
            Some(zone) => DnsHandler::query_zone(request, zone),
            None => DnsHandler::query_unknown_zone(request),
        }
    }

    /// The first step of a query in a known zone.
    pub fn query_zone(request: &Request, zone: DomainName) -> (out: Step)
        ensures
            out@ == spec_query_zone(request@, zone@),
    {
        let mut updates: Vec<MetricUpdate> = Vec::new();
        updates.push(
            MetricUpdate::ConnectionType {
                zone: Some(zone.clone()),
                ip_version: request.ip_version,
                protocol: request.protocol,
            },
        );
        updates.push(
            MetricUpdate::RecordType { zone: Some(zone.clone()), record_type: request.query.query_type() },
        );
        updates.push(MetricUpdate::QueryClass { zone: Some(zone.clone()), class: request.query.query_class() });
        assert(updates_view(updates) =~= spec_query_zone(request@, zone@).updates);
        Step { state: State::ZoneGeo { zone }, updates, action: Action::LookupGeo }
    }

    /// The first step of a query outside every zone.
    pub fn query_unknown_zone(request: &Request) -> (out: Step)
        ensures
            out@ == spec_query_unknown_zone(request@),
    {
        let mut updates: Vec<MetricUpdate> = Vec::new();
        updates.push(MetricUpdate::QueryClass { zone: None, class: request.query.query_class() });
        updates.push(
            MetricUpdate::ConnectionType {
                zone: None,
                ip_version: request.ip_version,
                protocol: request.protocol,
            },
        );
        updates.push(MetricUpdate::RecordType { zone: None, record_type: request.query.query_type() });
        assert(updates_view(updates) =~= spec_query_unknown_zone(request@).updates);
        Step { state: State::UnknownGeo, updates, action: Action::LookupGeo }
    }

    /// The authoritative reply to a request, from the SOA records of the
    /// zone and what the storage holds for the name and type asked for.
    pub fn compose(request: &Request, soas: &Vec<StorageRecord>, records: Option<Vec<StorageRecord>>) -> (out:
        Response)
        ensures
            out@ == spec_compose(
                request@,
                records_view(*soas),
                match records {
                    Some(found) => Some(records_view(found)),
                    None => None,
                },
            ),
    {
        match records {
            None => {
                let out = Response {
                    header: request.header.authoritative_reply(ResponseCode::NXDomain),
                    answers: Vec::new(),
                    authority: plain_records(soas),
                    edns: request.edns,
                };
                assert(out@.answers =~= Seq::<RecordView>::empty());
                assert(out@.authority =~= records_view(*soas));
                out
            },
            Some(found) => {
                if found.len() == 0 {
                    let out = Response {
                        header: request.header.authoritative_reply(ResponseCode::NoError),
                        answers: Vec::new(),
                        authority: plain_records(soas),
                        edns: request.edns,
                    };
                    assert(out@.answers =~= Seq::<RecordView>::empty());
                    assert(out@.authority =~= records_view(*soas));
                    out
                } else {
                    let ghost found_view = records_view(found);
                    let out = Response {
                        header: request.header.authoritative_reply(ResponseCode::NoError),
                        answers: renamed_records(found, request.query.original_name()),
                        authority: Vec::new(),
                        edns: request.edns,
                    };
                    assert(out@.answers =~= answer_section(found_view, request@.query.original));
                    assert(out@.authority =~= Seq::<RecordView>::empty());
                    out
                }
            },
        }
    }

    /// Goes on with a request once the work that the last step asked for is
    /// done. `None` where `event` is not what `state` waits for.
    pub fn resume(state: State, request: &Request, event: Event) -> (out: Option<Step>)
        ensures
            match spec_resume(state@, request@, event@) {
                Some(step) => out matches Some(next) && next@ == step,
                None => out is None,
            },
    {
        match (state, event) {
            (State::ZoneGeo { zone }, Event::Geo(geo)) => {
                match geo {
                    Err(_) => Some(DnsHandler::reply_error(request, Some(zone), ResponseCode::ServFail)),
                    Ok(info) => {
                        let bucket = Some(zone);
                        let updates = count_country(&bucket, info.country);
                        match bucket {
                            Some(zone) => Some(
                                Step {
                                    state: State::Soa { zone: zone.clone() },
                                    updates,
                                    action: Action::Lookup {
                                        name: zone.clone(),
                                        zone,
                                        record_type: RecordType::SOA,
                                    },
                                },
                            ),
                            None => None,
                        }
                    },
                }
            },
            (State::UnknownGeo, Event::Geo(geo)) => {
                match geo {
                    Err(_) => Some(DnsHandler::reply_error(request, None, ResponseCode::ServFail)),
                    Ok(info) => {
                        let mut updates = count_country(&None, info.country);
                        let ghost before = updates_view(updates);
                        updates.push(MetricUpdate::ResponseCode { zone: None, code: ResponseCode::Refused });
                        assert(updates_view(updates) =~= before.push(
                            UpdateView::ResponseCode { zone: None, code: ResponseCode::Refused },
                        ));
                        Some(
                            Step {
                                state: State::Sending,
                                updates,
                                action: Action::Send(Response::error(&request.header, ResponseCode::Refused)),
                            },
                        )
                    },
                }
            },
            (State::Soa { zone }, Event::Lookup(lookup)) => {
                match lookup {
                    Ok(Some(soas)) => {
                        if soas.len() == 0 {
                            Some(DnsHandler::reply_error(request, Some(zone), ResponseCode::ServFail))
                        } else {
                            Some(
                                Step {
                                    state: State::Records { zone: zone.clone(), soas },
                                    updates: no_updates(),
                                    action: Action::Lookup {
                                        name: request.query.name().clone(),
                                        zone,
                                        record_type: request.query.query_type(),
                                    },
                                },
                            )
                        }
                    },
                    _ => Some(DnsHandler::reply_error(request, Some(zone), ResponseCode::ServFail)),
                }
            },
            (State::Records { zone, soas }, Event::Lookup(lookup)) => {
                match lookup {
                    Err(_) => Some(DnsHandler::reply_error(request, Some(zone), ResponseCode::ServFail)),
                    Ok(records) => {
                        let response = DnsHandler::compose(request, &soas, records);
                        let code = response.header.response_code;
                        Some(
                            Step {
                                state: State::Sending,
                                updates: one_update(MetricUpdate::ResponseCode { zone: Some(zone), code }),
                                action: Action::Send(response),
                            },
                        )
                    },
                }
            },
            (State::Sending, Event::Sent(sent)) => {
                let info = match sent {
                    Some(info) => info,
                    None => ResponseInfo { header: request.header },
                };
                Some(Step { state: State::Done, updates: no_updates(), action: Action::Finish(info) })
            },
            _ => None,
        }
    }
}

/// The value of what the lookup of a sender's country gave.
pub open spec fn geo_view(geo: Result<GeoInfo, GeoError>) -> Result<GeoView, GeoError> {
    match geo {
        Ok(info) => Ok(info@),
        Err(e) => Err(e),
    }
}

/// Whether `response` and `updates` are what answering `request` comes to
/// when the work done outside gives what `outside` says.
pub open spec fn comes_to(
    zones: Seq<NameView>,
    request: RequestView,
    outside: Outside,
    response: ResponseView,
    updates: Seq<UpdateView>,
) -> bool {
    spec_outcome(zones, request, outside) == Some(Outcome { response, updates })
}

/// The steps that answering a request takes, at most four, when the work
/// done outside gives what `outside` says: each step after the first comes
/// from feeding the step before it.
pub open spec fn spec_steps(zones: Seq<NameView>, request: RequestView, outside: Outside) -> Seq<Option<StepView>> {
    let first = spec_handle_request(zones, request);
    let second = spec_feed(first, request, outside);
    let third = match second {
        Some(step) => spec_feed(step, request, outside),
        None => None,
    };
    let fourth = match third {
        Some(step) => spec_feed(step, request, outside),
        None => None,
    };
    seq![Some(first), second, third, fourth]
}

/// The outcome of a request is the reply of the first of its steps that
/// sends one, with the updates of all steps up to it. A step that sends no
/// reply asks for the sender's country if it is the first, and for records
/// if it is the second or the third; the fourth step always sends a reply.
pub proof fn lemma_steps(zones: Seq<NameView>, request: RequestView, outside: Outside)
    ensures
        ({
            let steps = spec_steps(zones, request, outside);
            let first = steps[0]->Some_0;
            let second = steps[1]->Some_0;
            let third = steps[2]->Some_0;
            let fourth = steps[3]->Some_0;
            let outcome = spec_outcome(zones, request, outside);
            if first.action is Send {
                outcome == Some(Outcome { response: first.action->Send_0, updates: first.updates })
            } else {
                &&& first.action is LookupGeo
                &&& first.state is ZoneGeo || first.state is UnknownGeo
                &&& steps[1] is Some
                &&& if second.action is Send {
                    outcome == Some(
                        Outcome { response: second.action->Send_0, updates: first.updates + second.updates },
                    )
                } else {
                    &&& second.action matches ActionView::Lookup { name, zone, record_type } && name == zone
                        && Some(zone) == spec_find_authority(zones, request.query.name.labels) && record_type
                        == RecordType::SOA
                    &&& second.state is Soa
                    &&& steps[2] is Some
                    &&& if third.action is Send {
                        outcome == Some(
                            Outcome {
                                response: third.action->Send_0,
                                updates: first.updates + second.updates + third.updates,
                            },
                        )
                    } else {
                        &&& third.action matches ActionView::Lookup { name, zone, record_type } && name
                            == request.query.name && Some(zone) == spec_find_authority(
                            zones,
                            request.query.name.labels,
                        ) && record_type == request.query.query_type
                        &&& third.state is Records
                        &&& steps[3] is Some
                        &&& fourth.action is Send
                        &&& outcome == Some(
                            Outcome {
                                response: fourth.action->Send_0,
                                updates: first.updates + second.updates + third.updates + fourth.updates,
                            },
                        )
                    }
                }
            }
        }),
{
    reveal_with_fuel(spec_run, 4);
    let steps = spec_steps(zones, request, outside);
    let first = steps[0]->Some_0;
    if !(first.action is Send) {
        let second = steps[1]->Some_0;
        if !(second.action is Send) {
            let third = steps[2]->Some_0;
            if third.action is Send {
                assert(first.updates + (second.updates + third.updates) =~= first.updates + second.updates
                    + third.updates);
            } else {
                let fourth = steps[3]->Some_0;
                assert(first.updates + (second.updates + (third.updates + fourth.updates)) =~= first.updates
                    + second.updates + third.updates + fourth.updates);
            }
        }
    }
}

fn join(first: Vec<MetricUpdate>, second: Vec<MetricUpdate>) -> (out: Vec<MetricUpdate>)
    ensures
        updates_view(out) == updates_view(first) + updates_view(second),
{
    let mut out = first;
    let mut rest = second;
    out.append(&mut rest);
    assert(updates_view(out) =~= updates_view(first) + updates_view(second));
    out
}

/// What comes back from outside when a store may fail: what `held` says,
/// but for the lookups that failed. `soa` and `records` are the errors of
/// the two lookups, where they failed.
pub open spec fn outside_with(held: Outside, soa: Option<StorageError>, records: Option<StorageError>) -> Outside {
    Outside {
        geo: held.geo,
        soa: match soa {
            Some(error) => Err(error),
            None => held.soa,
        },
        records: match records {
            Some(error) => Err(error),
            None => held.records,
        },
    }
}

impl DnsHandler {
    /// Answers a request from a store, in one go: every step of the
    /// pipeline is taken, every lookup that a step asks for is made in the
    /// store, and the reply to send is handed out with the counters to
    /// move. `geo` is what the lookup of the sender's country gave.
    ///
    /// The result is the outcome for what the model of the store holds,
    /// but for the lookups that failed: a lookup that the pipeline did not
    /// ask for, or that did not fail, changes nothing. In a store that
    /// never fails no lookup does.
    pub fn answer<S: Storage>(&self, request: &Request, geo: Result<GeoInfo, GeoError>, storage: &S) -> (out: (
        Response,
        Vec<MetricUpdate>,
    ))
        ensures
            ({
                let zone = spec_find_authority(self@, request@.query.name.labels);
                let held = outside_of_store(storage.model(), zone->Some_0, request@, geo_view(geo));
                &&& storage.reliable() ==> comes_to(self@, request@, held, out.0@, updates_view(out.1))
                &&& exists|soa: Option<StorageError>, records: Option<StorageError>|
                    comes_to(
                        self@,
                        request@,
                        #[trigger] outside_with(held, soa, records),
                        out.0@,
                        updates_view(out.1),
                    )
            }),
    {
        let ghost zones = self@;
        let ghost zone = spec_find_authority(zones, request@.query.name.labels)->Some_0;
        let ghost held = outside_of_store(storage.model(), zone, request@, geo_view(geo));
        proof {
            lemma_steps(zones, request@, held);
            assert(outside_with(held, None, None) == held);
        }
        let first = self.handle_request(request);
        match first.action {
            Action::Send(response) => {
                return (response, first.updates);
            },
            Action::LookupGeo => {
                let second = match DnsHandler::resume(first.state, request, Event::Geo(geo)) {
                    Some(step) => step,
                    None => vstd::pervasive::unreached(),
                };
                let updates = join(first.updates, second.updates);
                match second.action {
                    Action::Send(response) => {
                        return (response, updates);
                    },
                    Action::Lookup { name, zone, record_type } => {
                        let soa = storage.lookup_records(&name, &zone, record_type);
                        let ghost soa_error = match soa {
                            Ok(_) => None,
                            Err(error) => Some(error),
                        };
                        let ghost after_soa = outside_with(held, soa_error, None);
                        proof {
                            lemma_steps(zones, request@, after_soa);
                            assert(lookup_view(soa) == after_soa.soa);
                        }
                        let third = match DnsHandler::resume(second.state, request, Event::Lookup(soa)) {
                            Some(step) => step,
                            None => vstd::pervasive::unreached(),
                        };
                        let updates = join(updates, third.updates);
                        match third.action {
                            Action::Send(response) => {
                                proof {
                                    assert(comes_to(zones, request@, after_soa, response@, updates_view(updates)));
                                }
                                return (response, updates);
                            },
                            Action::Lookup { name, zone, record_type } => {
                                let records = storage.lookup_records(&name, &zone, record_type);
                                let ghost records_error = match records {
                                    Ok(_) => None,
                                    Err(error) => Some(error),
                                };
                                let ghost after_records = outside_with(held, soa_error, records_error);
                                proof {
                                    lemma_steps(zones, request@, after_records);
                                    assert(lookup_view(records) == after_records.records);
                                }
                                let fourth = match DnsHandler::resume(third.state, request, Event::Lookup(records)) {
                                    Some(step) => step,
                                    None => vstd::pervasive::unreached(),
                                };
                                let updates = join(updates, fourth.updates);
                                match fourth.action {
                                    Action::Send(response) => {
                                        proof {
                                            assert(comes_to(
                                                zones,
                                                request@,
                                                after_records,
                                                response@,
                                                updates_view(updates),
                                            ));
                                        }
                                        return (response, updates);
                                    },
                                    _ => vstd::pervasive::unreached(),
                                }
                            },
                            _ => vstd::pervasive::unreached(),
                        }
                    },
                    _ => vstd::pervasive::unreached(),
                }
            },
            _ => vstd::pervasive::unreached(),
        }
    }
}

/// A request that is answered without a lookup in the store gets the same
/// reply whatever the store gives: a message that is no query, a query of
/// another class than IN, a query outside every zone, and a query whose
/// sender's country is not found.
pub proof fn lemma_no_lookup_needed(zones: Seq<NameView>, request: RequestView, first: Outside, second: Outside)
    requires
        first.geo == second.geo,
        !is_query(request) || request.query.query_class != DnsClass::IN || spec_find_authority(
            zones,
            request.query.name.labels,
        ) is None || first.geo is Err,
    ensures
        spec_outcome(zones, request, first) == spec_outcome(zones, request, second),
{
    reveal_with_fuel(spec_run, 4);
}

/// Whether `label` is the label of one of the first `n` of `zones`.
pub open spec fn label_among(zones: Seq<NameView>, n: int, label: Seq<char>) -> bool {
    exists|i: int| 0 <= i < n && label == zone_label(Some(#[trigger] zones[i]))
}

/// What the metrics hold once the counters of the first `n` of `added` were
/// asked for, one zone after the other.
pub open spec fn held_after_added(held: Held, added: Seq<NameView>, n: int) -> Held
    decreases n,
{
    if n <= 0 {
        held
    } else {
        spec_register_zone(held_after_added(held, added, n - 1), zone_label(Some(added[n - 1])))
    }
}

/// What the metrics hold once the counters of the first `n` of `removed`
/// were taken away, one zone after the other.
pub open spec fn held_after_removed(held: Held, removed: Seq<NameView>, n: int) -> Held
    decreases n,
{
    if n <= 0 {
        held
    } else {
        spec_unregister_zone(held_after_removed(held, removed, n - 1), zone_label(Some(removed[n - 1])))
    }
}

impl DnsHandler {
    /// One turn of the loop that keeps the zones up to date. `listed` is
    /// what the storage gave when asked for its zones.
    ///
    /// Where the storage failed, nothing changes and the result is `false`.
    /// Else the counters of the zones that are new are asked for, zone by
    /// zone, then the counters of the zones that are gone are taken away,
    /// and only then the new snapshot takes the place of the old: no
    /// request sees a zone before its counters exist. A new zone is without
    /// counters only where the registry refused them; it is served all the
    /// same, and nothing is counted for it. The counters of the zones that
    /// stay are not touched.
    pub fn zone_loader(&mut self, metrics: &mut Metrics, listed: Result<Vec<DomainName>, StorageError>) -> (out:
        bool)
        requires
            old(metrics).wf(),
        ensures
            final(metrics).wf(),
            final(metrics).instance() == old(metrics).instance(),
            out == listed is Ok,
            listed is Err ==> final(self)@ == old(self)@ && final(metrics).held() == old(metrics).held()
                && final(metrics).registered() == old(metrics).registered() && final(metrics).counts() == old(
                metrics,
            ).counts(),
            listed matches Ok(zones) ==> {
                let refresh = spec_refresh(old(self)@, names_view(zones));
                let added = refresh.added;
                let removed = refresh.removed;
                &&& final(self)@ == refresh.snapshot
                &&& final(metrics).held() == held_after_removed(
                    held_after_added(old(metrics).held(), added, added.len() as int),
                    removed,
                    removed.len() as int,
                )
                &&& forall|j: int|
                    0 <= j < removed.len() ==> !final(metrics).zones().contains(
                        zone_label(Some(#[trigger] removed[j])),
                    )
                &&& forall|i: int|
                    0 <= i < added.len() ==> final(metrics).zones().contains(zone_label(Some(#[trigger] added[i])))
                        || label_among(removed, removed.len() as int, zone_label(Some(added[i])))
                        || label_refused(
                        held_after_added(old(metrics).held(), added, i).taken,
                        zone_label(Some(added[i])),
                    )
                &&& forall|label: Seq<char>| #[trigger]
                    final(metrics).zones().contains(label) && !old(metrics).zones().contains(label)
                        ==> final(metrics).fresh(label)
                &&& forall|label: Seq<char>, family: Family|
                    !label_among(added, added.len() as int, label) && !label_among(
                        removed,
                        removed.len() as int,
                        label,
                    ) ==> #[trigger] final(metrics).series(Some(label), family) == old(metrics).series(
                        Some(label),
                        family,
                    )
                &&& added.len() == 0 && removed.len() == 0 ==> final(metrics).registered() == old(
                    metrics,
                ).registered() && final(metrics).counts() == old(metrics).counts()
            },
            forall|family: Family| final(metrics).unknown_series(family) == old(metrics).unknown_series(family),
    {
        let zones = match listed {
            Ok(zones) => zones,
            Err(_) => {
                return false;
            },
        };
        let refresh = self.zone_cache.refresh(&zones);
        let ghost added = names_view(refresh.added);
        let ghost removed = names_view(refresh.removed);
        let ghost before = metrics.zones();
        let ghost start = metrics.held();
        let mut i: usize = 0;
        while i < refresh.added.len()
            invariant
                i <= refresh.added.len(),
                added == names_view(refresh.added),
                metrics.wf(),
                metrics.instance() == old(metrics).instance(),
                before == old(metrics).zones(),
                start == old(metrics).held(),
                metrics.held() == held_after_added(start, added, i as int),
                i == 0 ==> metrics.registered() == old(metrics).registered(),
                forall|label: Seq<char>| #[trigger]
                    metrics.zones().contains(label) ==> before.contains(label) || label_among(added, i as int, label),
                forall|label: Seq<char>| #[trigger] before.contains(label) ==> metrics.zones().contains(label),
                forall|k: int|
                    0 <= k < i ==> metrics.zones().contains(zone_label(Some(#[trigger] added[k])))
                        || label_refused(held_after_added(start, added, k).taken, zone_label(Some(added[k]))),
                forall|label: Seq<char>| #[trigger]
                    metrics.zones().contains(label) && !before.contains(label) ==> metrics.fresh(label),
                forall|label: Seq<char>, family: Family|
                    !label_among(added, i as int, label) ==> #[trigger] metrics.series(Some(label), family) == old(
                        metrics,
                    ).series(Some(label), family),
                forall|family: Family| metrics.unknown_series(family) == old(metrics).unknown_series(family),
            decreases refresh.added.len() - i,
        {
            let ghost so_far = *metrics;
            let ghost here = zone_label(Some(added[i as int]));
            assert(added[i as int] == refresh.added[i as int]@);
            let _ = metrics.register_zone(&refresh.added[i]);
            proof {
                assert forall|label: Seq<char>| #[trigger] metrics.zones().contains(label) implies before.contains(
                    label,
                ) || label_among(added, i as int + 1, label) by {
                    if so_far.zones().contains(label) {
                        if !before.contains(label) {
                            let k = choose|k: int| 0 <= k < i && label == zone_label(Some(#[trigger] added[k]));
                            assert(0 <= k < i + 1);
                        }
                    } else {
                        assert(label == here);
                    }
                }
                assert forall|label: Seq<char>| #[trigger]
                    metrics.zones().contains(label) && !before.contains(label) implies metrics.fresh(label) by {
                    if label != here {
                        assert(so_far.zones().contains(label));
                        assert(so_far.fresh(label));
                        assert forall|n: int| 0 <= n < 5 implies metrics.series(
                            Some(label),
                            #[trigger] family_at(n),
                        ) == so_far.series(Some(label), family_at(n)) by {}
                        assert(metrics.series(Some(label), Family::CountryQueries) == so_far.series(
                            Some(label),
                            Family::CountryQueries,
                        ));
                    } else if so_far.zones().contains(label) {
                        assert(metrics.counts() == so_far.counts());
                        assert forall|family: Family|
                            metrics.series(Some(label), family) == so_far.series(Some(label), family) by {
                            assert(metrics.counts()[(Some(label), family)] == so_far.counts()[(Some(label), family)]);
                        }
                    }
                }
                assert forall|label: Seq<char>, family: Family|
                    !label_among(added, i as int + 1, label) implies #[trigger] metrics.series(Some(label), family)
                    == old(metrics).series(Some(label), family) by {
                    if label_among(added, i as int, label) {
                        let k = choose|k: int| 0 <= k < i && label == zone_label(Some(#[trigger] added[k]));
                        assert(0 <= k < i + 1);
                    }
                    assert(label != here);
                    assert(so_far.series(Some(label), family) == old(metrics).series(Some(label), family));
                }
            }
            i = i + 1;
        }
        let ghost between = *metrics;
        let mut j: usize = 0;
        while j < refresh.removed.len()
            invariant
                j <= refresh.removed.len(),
                removed == names_view(refresh.removed),
                metrics.wf(),
                metrics.instance() == old(metrics).instance(),
                metrics.held() == held_after_removed(between.held(), removed, j as int),
                refresh.added.len() == 0 && j == 0 ==> metrics.registered() == old(metrics).registered(),
                forall|label: Seq<char>| #[trigger] metrics.zones().contains(label) ==> between.zones().contains(label),
                forall|label: Seq<char>| #[trigger]
                    between.zones().contains(label) && !label_among(removed, j as int, label)
                        ==> metrics.zones().contains(label),
                forall|k: int| 0 <= k < j ==> !metrics.zones().contains(zone_label(Some(#[trigger] removed[k]))),
                forall|label: Seq<char>, family: Family|
                    !label_among(removed, j as int, label) ==> #[trigger] metrics.series(Some(label), family)
                        == between.series(Some(label), family),
                forall|family: Family| metrics.unknown_series(family) == old(metrics).unknown_series(family),
            decreases refresh.removed.len() - j,
        {
            let ghost so_far = *metrics;
            let ghost here = zone_label(Some(removed[j as int]));
            assert(removed[j as int] == refresh.removed[j as int]@);
            metrics.unregister_zone(&refresh.removed[j]);
            proof {
                assert forall|label: Seq<char>| #[trigger]
                    between.zones().contains(label) && !label_among(removed, j as int + 1, label)
                    implies metrics.zones().contains(label) by {
                    assert(label != here);
                    if label_among(removed, j as int, label) {
                        let k = choose|k: int| 0 <= k < j && label == zone_label(Some(#[trigger] removed[k]));
                        assert(0 <= k < j + 1);
                    }
                }
                assert forall|label: Seq<char>, family: Family|
                    !label_among(removed, j as int + 1, label) implies #[trigger] metrics.series(
                    Some(label),
                    family,
                ) == between.series(Some(label), family) by {
                    if label_among(removed, j as int, label) {
                        let k = choose|k: int| 0 <= k < j && label == zone_label(Some(#[trigger] removed[k]));
                        assert(0 <= k < j + 1);
                    }
                    assert(label != here);
                    assert(so_far.series(Some(label), family) == between.series(Some(label), family));
                }
            }
            j = j + 1;
        }
        proof {
            assert forall|k: int| 0 <= k < added.len() implies metrics.zones().contains(
                zone_label(Some(#[trigger] added[k])),
            ) || label_among(removed, removed.len() as int, zone_label(Some(added[k]))) || label_refused(
                held_after_added(start, added, k).taken,
                zone_label(Some(added[k])),
            ) by {}
            assert forall|label: Seq<char>| #[trigger]
                metrics.zones().contains(label) && !old(metrics).zones().contains(label) implies metrics.fresh(
                label,
            ) by {
                assert(between.zones().contains(label));
                assert(between.fresh(label));
                if label_among(removed, removed.len() as int, label) {
                    let k = choose|k: int|
                        0 <= k < removed.len() && label == zone_label(Some(#[trigger] removed[k]));
                    assert(!metrics.zones().contains(zone_label(Some(removed[k]))));
                }
                assert forall|n: int| 0 <= n < 5 implies metrics.series(Some(label), #[trigger] family_at(n))
                    == between.series(Some(label), family_at(n)) by {}
                assert(metrics.series(Some(label), Family::CountryQueries) == between.series(
                    Some(label),
                    Family::CountryQueries,
                ));
            }
            if added.len() == 0 && removed.len() == 0 {
                assert(metrics.counts() =~= old(metrics).counts()) by {
                    assert forall|key: (Option<Seq<char>>, Family)| #[trigger]
                        metrics.counts().contains_key(key) implies metrics.counts()[key] == old(
                        metrics,
                    ).counts()[key] by {
                        match key.0 {
                            Some(label) => {
                                assert(metrics.series(Some(label), key.1) == old(metrics).series(
                                    Some(label),
                                    key.1,
                                ));
                            },
                            None => {
                                assert(metrics.unknown_series(key.1) == old(metrics).unknown_series(key.1));
                            },
                        }
                    }
                }
            }
        }
        self.zone_cache = refresh.snapshot;
        true
    }
}

} // verus!
