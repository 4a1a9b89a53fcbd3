//! What the administration interface decides: which requests it accepts,
//! what it writes to the storage, in which order, and with which status it
//! answers.
//!
//! What is to be written comes as a plan, a list of writes, so that a
//! caller whose store is reached by other means than the `Storage` trait
//! can make the same writes in the same order. The data of the records are
//! written by the encoder of `trust-dns-proto`, in canonical form.
//!
//! Receiving a request and sending the status are no part of this module.

use crate::cache::name_in;
use crate::cache::names_view;
use crate::name::labels_of;
use crate::name::labels_wf;
use crate::name::lower_labels;
use crate::name::wire_len;
use crate::name::wire_name;
use crate::name::DomainName;
use crate::name::NameView;
use crate::name::MAX_NAME_LEN;
use crate::record::plain_records_view;
use crate::record::records_view;
use crate::record::DnsClass;
use crate::record::Record;
use crate::record::RecordType;
use crate::record::RecordView;
use crate::record::StorageRecord;
use crate::storage::domains_of;
use crate::storage::records_at;
use crate::storage::spec_add_record;
use crate::storage::spec_add_zone;
use crate::storage::Storage;
use crate::storage::StoreView;
use vstd::prelude::*;

verus! {

/// The longest section of a TXT record, in bytes.
pub const MAX_TXT_SECTION_LENGTH: usize = 255;

/// The longest data of a record, in bytes.
pub const MAX_RDATA_LENGTH: usize = 65535;

/// The status that a request is answered with.
#[derive(Debug, Clone, Copy, PartialEq, Eq, Hash, Structural)]
pub enum StatusCode {
    /// 201
    Created,
    /// 400
    BadRequest,
    /// 409
    Conflict,
    /// 500
    InternalServerError,
}

impl StatusCode {
    /// The number of the status.
    pub fn code(self) -> (out: u16)
        ensures
            out == match self {
                StatusCode::Created => 201u16,
                StatusCode::BadRequest => 400u16,
                StatusCode::Conflict => 409u16,
                StatusCode::InternalServerError => 500u16,
            },
    {
        match self {
            StatusCode::Created => 201,
            StatusCode::BadRequest => 400,
            StatusCode::Conflict => 409,
            StatusCode::InternalServerError => 500,
        }
    }
}

/// The value of a digit of base 16, written as a digit or as a letter of
/// either case; `None` for every other byte.
pub open spec fn hex_value(b: u8) -> Option<u8> {
    if 0x30 <= b && b <= 0x39 {
        Some((b - 0x30) as u8)
    } else if 0x41 <= b && b <= 0x46 {
        Some((b - 0x41 + 10) as u8)
    } else if 0x61 <= b && b <= 0x66 {
        Some((b - 0x61 + 10) as u8)
    } else {
        None
    }
}

/// Whether every byte is a digit of base 16.
pub open spec fn all_hex(text: Seq<u8>) -> bool {
    forall|i: int| 0 <= i < text.len() ==> hex_value(#[trigger] text[i]) is Some
}

/// The bytes that a text of digits of base 16 stands for, two digits to the
/// byte, the first digit the upper half.
pub open spec fn hex_bytes(text: Seq<u8>) -> Seq<u8> {
    Seq::new(
        text.len() / 2,
        |i: int| (hex_value(text[2 * i]).unwrap() * 16 + hex_value(text[2 * i + 1]).unwrap()) as u8,
    )
}

/// What decoding a text of base 16 gives: the bytes, or `None` where the
/// text is empty, of odd length, or holds a byte that is no digit.
pub open spec fn spec_hex_decode(text: Seq<u8>) -> Option<Seq<u8>> {
    if text.len() == 0 || text.len() % 2 != 0 || !all_hex(text) {
        None
    } else {
        Some(hex_bytes(text))
    }
}

/// The error type of the `faster-hex` crate.
#[verifier::external_type_specification]
#[verifier::external_body]
pub struct ExHexError(faster_hex::Error);

/// Decodes base 16 with `faster_hex::hex_decode` into a buffer of half the
/// length of the text. The call refuses an empty text, a text of odd length
/// and a byte that is no digit of base 16, and then leaves the buffer as it
/// is; else it fills the buffer with the bytes that the digits stand for.
#[verifier::external_body]
fn hex_decode(text: &[u8], buffer: &mut Vec<u8>) -> (out: Result<(), faster_hex::Error>)
    requires
        old(buffer).len() * 2 == text.len(),
    ensures
        out is Ok <==> spec_hex_decode(text@) is Some,
        out is Ok ==> final(buffer)@ == hex_bytes(text@),
        out is Err ==> final(buffer)@ == old(buffer)@,
{
    faster_hex::hex_decode(text, buffer)
}

fn zeroes(n: usize) -> (out: Vec<u8>)
    ensures
        out.len() == n,
{
    let mut out: Vec<u8> = Vec::new();
    let mut i: usize = 0;
    while i < n
        invariant
            i <= n,
            out.len() == i,
        decreases n - i,
    {
        out.push(0u8);
        i = i + 1;
    }
    out
}

/// The sections of a TXT record that the given texts stand for.
///
/// | a text | gives |
/// |---|---|
/// | of more than 510 bytes | `None` |
/// | that is no base 16 | `None` |
/// | of base 16 | the bytes it stands for |
pub open spec fn spec_decode_sections(texts: Seq<Seq<u8>>) -> Option<Seq<Seq<u8>>>
    decreases texts.len(),
{
    if texts.len() == 0 {
        Some(Seq::empty())
    } else {
        match spec_decode_sections(texts.drop_last()) {
            None => None,
            Some(rest) => if texts.last().len() > MAX_TXT_SECTION_LENGTH * 2 {
                None
            } else {
                match spec_hex_decode(texts.last()) {
                    Some(bytes) => Some(rest.push(bytes)),
                    None => None,
                }
            },
        }
    }
}

/// The bytes of the texts held in a vector, in their order.
pub open spec fn text_bytes_view(texts: Vec<String>) -> Seq<Seq<u8>> {
    Seq::new(texts.len() as nat, |i: int| vstd::utf8::encode_utf8(texts[i]@))
}

/// The byte sequences held in a vector, in their order.
pub open spec fn sections_view(sections: Vec<Vec<u8>>) -> Seq<Seq<u8>> {
    Seq::new(sections.len() as nat, |i: int| sections[i]@)
}

/// Once the decoding has failed on the first `n` texts, it fails on all.
proof fn lemma_decode_failure_stays(texts: Seq<Seq<u8>>, n: int)
    requires
        0 <= n <= texts.len(),
        spec_decode_sections(texts.take(n)) is None,
    ensures
        spec_decode_sections(texts) is None,
    decreases texts.len() - n,
{
    if n < texts.len() {
        assert(texts.take(n + 1).drop_last() =~= texts.take(n));
        lemma_decode_failure_stays(texts, n + 1);
    } else {
        assert(texts.take(n) =~= texts);
    }
}

/// The sections of a TXT record from their texts of base 16. A text of
/// more than 510 bytes, and a text that is no base 16, is a bad request.
pub fn decode_txt_sections(texts: &Vec<String>) -> (out: Result<Vec<Vec<u8>>, StatusCode>)
    ensures
        match spec_decode_sections(text_bytes_view(*texts)) {
            Some(sections) => out matches Ok(found) && sections_view(found) == sections,
            None => out == Err::<Vec<Vec<u8>>, StatusCode>(StatusCode::BadRequest),
        },
{
    let ghost all = text_bytes_view(*texts);
    let mut sections: Vec<Vec<u8>> = Vec::new();
    let mut i: usize = 0;
    assert(sections_view(sections) =~= Seq::<Seq<u8>>::empty());
    assert(all.take(0) =~= Seq::<Seq<u8>>::empty());
    while i < texts.len()
        invariant
            i <= texts.len(),
            all == text_bytes_view(*texts),
            spec_decode_sections(all.take(i as int)) == Some(sections_view(sections)),
        decreases texts.len() - i,
    {
        let ghost before = sections_view(sections);
        assert(all.take(i as int + 1).drop_last() =~= all.take(i as int));
        assert(all.take(i as int + 1).last() == vstd::utf8::encode_utf8(texts[i as int]@));
        let text = texts[i].as_str();
        let bytes = text.as_bytes();
        if bytes.len() > MAX_TXT_SECTION_LENGTH * 2 {
            proof {
                lemma_decode_failure_stays(all, i as int + 1);
            }
            return Err(StatusCode::BadRequest);
        }
        let mut section = zeroes(bytes.len() / 2);
        if bytes.len() % 2 != 0 {
            proof {
                lemma_decode_failure_stays(all, i as int + 1);
            }
            return Err(StatusCode::BadRequest);
        }
        match hex_decode(bytes, &mut section) {
            Ok(()) => {
                let ghost section_view = section@;
                sections.push(section);
                assert(sections_view(sections) =~= before.push(section_view));
            },
            Err(_) => {
                proof {
                    lemma_decode_failure_stays(all, i as int + 1);
                }
                return Err(StatusCode::BadRequest);
            },
        }
        i = i + 1;
    }
    assert(all.take(texts.len() as int) =~= all);
    Ok(sections)
}

/// The data of a TXT record with the first `n` of the given sections: each
/// section behind the byte that holds its length.
pub open spec fn txt_rdata(sections: Seq<Seq<u8>>, n: int) -> Seq<u8>
    decreases n,
{
    if n <= 0 {
        Seq::empty()
    } else {
        txt_rdata(sections, n - 1) + seq![sections[n - 1].len() as u8] + sections[n - 1]
    }
}

/// Whether sections can be the data of a TXT record: none is longer than
/// 255 bytes, and the data is no longer than 65535 bytes.
pub open spec fn txt_fits(sections: Seq<Seq<u8>>) -> bool {
    &&& forall|i: int| 0 <= i < sections.len() ==> (#[trigger] sections[i]).len() <= MAX_TXT_SECTION_LENGTH
    &&& txt_rdata(sections, sections.len() as int).len() <= MAX_RDATA_LENGTH
}

/// The four bytes of a number of 32 bits, the highest first.
pub open spec fn be_bytes(value: u32) -> Seq<u8> {
    seq![
        (value / 0x100_0000) as u8,
        (value / 0x1_0000 % 0x100) as u8,
        (value / 0x100 % 0x100) as u8,
        (value % 0x100) as u8,
    ]
}

/// The four bytes of a signed number of 32 bits in two's complement, the
/// highest first.
pub open spec fn be_bytes_signed(value: i32) -> Seq<u8> {
    if value >= 0 {
        be_bytes(value as u32)
    } else {
        be_bytes((value + 0x1_0000_0000) as u32)
    }
}

/// A name as the data of a record holds it: in lower case, each label
/// behind the byte that holds its length, and a zero byte at the end.
pub open spec fn name_data(labels: Seq<Seq<u8>>) -> Seq<u8> {
    wire_name(lower_labels(labels))
}

/// Whether a name can stand in the data of a record: with the zero byte at
/// its end it is no longer than 255 bytes.
pub open spec fn encodable(labels: Seq<Seq<u8>>) -> bool {
    wire_len(labels) < MAX_NAME_LEN
}

/// The fields of an SOA record.
pub struct Soa {
    /// The primary name server of the zone.
    pub mname: DomainName,
    /// The mailbox of who is responsible for the zone, as a name.
    pub rname: DomainName,
    pub serial: u32,
    pub refresh: i32,
    pub retry: i32,
    pub expire: i32,
    pub minimum: u32,
}

/// A name server of a zone, with the time to live of its record.
pub struct NameServer {
    pub name: DomainName,
    pub ttl: u32,
}

/// The data of an SOA record: the two names, and the five numbers, each in
/// four bytes.
pub open spec fn soa_data(
    mname: Seq<Seq<u8>>,
    rname: Seq<Seq<u8>>,
    serial: u32,
    refresh: i32,
    retry: i32,
    expire: i32,
    minimum: u32,
) -> Seq<u8> {
    name_data(mname) + name_data(rname) + be_bytes(serial) + be_bytes_signed(refresh) + be_bytes_signed(retry)
        + be_bytes_signed(expire) + be_bytes(minimum)
}

/// The data of the SOA record with the given fields.
pub open spec fn soa_rdata(soa: Soa) -> Seq<u8> {
    soa_data(soa.mname@.labels, soa.rname@.labels, soa.serial, soa.refresh, soa.retry, soa.expire, soa.minimum)
}

/// Makes the data of an SOA record with `SOA::new` of `trust-dns-proto` and
/// writes it with `RData::emit`, in canonical form: the names in lower case
/// and in full, each label behind its length and a zero byte at the end,
/// then the numbers in four bytes each, the highest first. The encoder
/// refuses a name that takes more than 255 bytes in this form, and nothing
/// else here.
#[verifier::external_body]
fn encode_soa(mname: &Vec<Vec<u8>>, rname: &Vec<Vec<u8>>, serial: u32, refresh: i32, retry: i32, expire: i32, minimum: u32) -> (out: Option<Vec<u8>>)
    requires
        labels_wf(labels_of(*mname)),
        labels_wf(labels_of(*rname)),
    ensures
        out is Some <==> (encodable(labels_of(*mname)) && encodable(labels_of(*rname))),
        out matches Some(data) ==> data@ == soa_data(labels_of(*mname), labels_of(*rname), serial, refresh, retry, expire, minimum),
{
    let mname = trust_dns_proto::rr::Name::from_labels(mname.iter().map(|label| label.as_slice())).ok()?;
    let rname = trust_dns_proto::rr::Name::from_labels(rname.iter().map(|label| label.as_slice())).ok()?;
    let soa = trust_dns_proto::rr::rdata::SOA::new(mname, rname, serial, refresh, retry, expire, minimum);
    let mut out = Vec::new();
    let mut encoder = trust_dns_proto::serialize::binary::BinEncoder::new(&mut out);
    encoder.set_canonical_names(true);
    trust_dns_proto::rr::RData::SOA(soa).emit(&mut encoder).ok()?;
    Some(out)
}

/// Writes a name as the data of an NS record, with `RData::emit` of
/// `trust-dns-proto` in canonical form: in lower case and in full, each
/// label behind its length and a zero byte at the end. The encoder refuses
/// a name that takes more than 255 bytes in this form, and nothing else
/// here.
#[verifier::external_body]
fn encode_ns(name: &Vec<Vec<u8>>) -> (out: Option<Vec<u8>>)
    requires
        labels_wf(labels_of(*name)),
    ensures
        out is Some <==> encodable(labels_of(*name)),
        out matches Some(data) ==> data@ == name_data(labels_of(*name)),
{
    let name = trust_dns_proto::rr::Name::from_labels(name.iter().map(|label| label.as_slice())).ok()?;
    let mut out = Vec::new();
    let mut encoder = trust_dns_proto::serialize::binary::BinEncoder::new(&mut out);
    encoder.set_canonical_names(true);
    trust_dns_proto::rr::RData::NS(name).emit(&mut encoder).ok()?;
    Some(out)
}

/// Makes the data of a TXT record with `TXT::from_bytes` of
/// `trust-dns-proto` and writes it with `RData::emit`: each section behind
/// the byte that holds its length. The encoder refuses a section of more
/// than 255 bytes, and data of more than 65535 bytes.
#[verifier::external_body]
fn encode_txt(sections: &Vec<Vec<u8>>) -> (out: Option<Vec<u8>>)
    ensures
        out is Some <==> txt_fits(sections_view(*sections)),
        out matches Some(data) ==> data@ == txt_rdata(sections_view(*sections), sections.len() as int),
{
    let txt = trust_dns_proto::rr::rdata::TXT::from_bytes(sections.iter().map(|section| section.as_slice()).collect());
    let mut out = Vec::new();
    let mut encoder = trust_dns_proto::serialize::binary::BinEncoder::new(&mut out);
    trust_dns_proto::rr::RData::TXT(txt).emit(&mut encoder).ok()?;
    Some(out)
}

/// The A record of `domain` with the given address.
pub fn a_record(domain: &DomainName, ttl: u32, address: [u8; 4]) -> (out: Record)
    ensures
        out@ == (RecordView {
            name: domain@,
            rr_type: RecordType::A,
            dns_class: DnsClass::IN,
            ttl,
            rdata: address@,
        }),
{
    let mut rdata: Vec<u8> = Vec::new();
    let mut k: usize = 0;
    while k < 4
        invariant
            k <= 4,
            rdata@ == address@.subrange(0, k as int),
        decreases 4 - k,
    {
        rdata.push(address[k]);
        k = k + 1;
        assert(rdata@ =~= address@.subrange(0, k as int));
    }
    assert(address@.subrange(0, 4) =~= address@);
    Record::from_rdata(domain.clone(), RecordType::A, ttl, rdata)
}

/// The AAAA record of `domain` with the given address.
pub fn aaaa_record(domain: &DomainName, ttl: u32, address: [u8; 16]) -> (out: Record)
    ensures
        out@ == (RecordView {
            name: domain@,
            rr_type: RecordType::AAAA,
            dns_class: DnsClass::IN,
            ttl,
            rdata: address@,
        }),
{
    let mut rdata: Vec<u8> = Vec::new();
    let mut k: usize = 0;
    while k < 16
        invariant
            k <= 16,
            rdata@ == address@.subrange(0, k as int),
        decreases 16 - k,
    {
        rdata.push(address[k]);
        k = k + 1;
        assert(rdata@ =~= address@.subrange(0, k as int));
    }
    assert(address@.subrange(0, 16) =~= address@);
    Record::from_rdata(domain.clone(), RecordType::AAAA, ttl, rdata)
}

/// The TXT record of `domain` with the given sections; `None` where a
/// section is longer than 255 bytes or the sections are too many for one
/// record.
pub fn txt_record(domain: &DomainName, ttl: u32, sections: &Vec<Vec<u8>>) -> (out: Option<Record>)
    ensures
        match out {
            Some(record) => txt_fits(sections_view(*sections)) && record@ == (RecordView {
                name: domain@,
                rr_type: RecordType::TXT,
                dns_class: DnsClass::IN,
                ttl,
                rdata: txt_rdata(sections_view(*sections), sections.len() as int),
            }),
            None => !txt_fits(sections_view(*sections)),
        },
{
    match encode_txt(sections) {
        Some(rdata) => Some(Record::from_rdata(domain.clone(), RecordType::TXT, ttl, rdata)),
        None => None,
    }
}

/// The SOA record of a zone.
pub open spec fn spec_soa_record(zone: NameView, ttl: u32, soa: Soa) -> RecordView {
    RecordView { name: zone, rr_type: RecordType::SOA, dns_class: DnsClass::IN, ttl, rdata: soa_rdata(soa) }
}

/// The NS record that names a name server, under the given owner.
pub open spec fn spec_ns_record(owner: NameView, ttl: u32, nameserver: NameView) -> RecordView {
    RecordView {
        name: owner,
        rr_type: RecordType::NS,
        dns_class: DnsClass::IN,
        ttl,
        rdata: name_data(nameserver.labels),
    }
}

/// The SOA record of `zone`; `None` where one of its two names cannot stand
/// in the data of a record.
pub fn soa_record(zone: &DomainName, ttl: u32, soa: &Soa) -> (out: Option<Record>)
    ensures
        out is Some <==> encodable(soa.mname@.labels) && encodable(soa.rname@.labels),
        out matches Some(record) ==> record@ == spec_soa_record(zone@, ttl, *soa),
{
    match encode_soa(
        soa.mname.labels(),
        soa.rname.labels(),
        soa.serial,
        soa.refresh,
        soa.retry,
        soa.expire,
        soa.minimum,
    ) {
        Some(rdata) => Some(Record::from_rdata(zone.clone(), RecordType::SOA, ttl, rdata)),
        None => None,
    }
}

/// The NS record that names `nameserver`, under the owner `owner`; `None`
/// where the name of the name server cannot stand in the data of a record.
pub fn ns_record(owner: &DomainName, ttl: u32, nameserver: &DomainName) -> (out: Option<Record>)
    ensures
        out is Some <==> encodable(nameserver@.labels),
        out matches Some(record) ==> record@ == spec_ns_record(owner@, ttl, nameserver@),
{
    match encode_ns(nameserver.labels()) {
        Some(rdata) => Some(Record::from_rdata(owner.clone(), RecordType::NS, ttl, rdata)),
        None => None,
    }
}

/// Whether the records of a zone can be made: the names of its SOA record
/// and of its name servers can stand in the data of a record.
pub open spec fn zone_encodable(soa: Soa, nameservers: Seq<NameServer>) -> bool {
    &&& encodable(soa.mname@.labels)
    &&& encodable(soa.rname@.labels)
    &&& forall|i: int| 0 <= i < nameservers.len() ==> encodable((#[trigger] nameservers[i]).name@.labels)
}

/// The records that a zone is set up with, all of them under the name of
/// the zone: its SOA record, and behind it one NS record for each of its
/// name servers, in their order.
pub open spec fn spec_zone_records(zone: NameView, ttl: u32, soa: Soa, nameservers: Seq<NameServer>) -> Seq<
    RecordView,
> {
    Seq::new(
        nameservers.len() + 1,
        |i: int|
            if i == 0 {
                spec_soa_record(zone, ttl, soa)
            } else {
                spec_ns_record(zone, nameservers[i - 1].ttl, nameservers[i - 1].name@)
            },
    )
}

/// The records that a zone is set up with: its SOA record, and one NS
/// record for each of its name servers. The owner of every one of them is
/// the zone. `None` where one of the names cannot stand in the data of a
/// record.
pub fn zone_records(zone: &DomainName, ttl: u32, soa: &Soa, nameservers: &Vec<NameServer>) -> (out: Option<
    Vec<Record>,
>)
    ensures
        out is Some <==> zone_encodable(*soa, nameservers@),
        out matches Some(records) ==> (plain_records_view(records) == spec_zone_records(zone@, ttl, *soa, nameservers@)
            && forall|i: int| 0 <= i < records.len() ==> (#[trigger] records[i])@.name == zone@),
{
    let mut records: Vec<Record> = Vec::new();
    match soa_record(zone, ttl, soa) {
        Some(record) => {
            records.push(record);
        },
        None => {
            return None;
        },
    }
    let mut i: usize = 0;
    while i < nameservers.len()
        invariant
            i <= nameservers.len(),
            encodable(soa.mname@.labels),
            encodable(soa.rname@.labels),
            records.len() == i + 1,
            records[0]@ == spec_soa_record(zone@, ttl, *soa),
            forall|k: int| 0 <= k < i ==> encodable((#[trigger] nameservers[k]).name@.labels),
            forall|k: int|
                1 <= k <= i ==> (#[trigger] records[k])@ == spec_ns_record(
                    zone@,
                    nameservers[k - 1].ttl,
                    nameservers[k - 1].name@,
                ),
        decreases nameservers.len() - i,
    {
        match ns_record(zone, nameservers[i].ttl, &nameservers[i].name) {
            Some(record) => {
                records.push(record);
            },
            None => {
                return None;
            },
        }
        i = i + 1;
    }
    assert(plain_records_view(records) =~= spec_zone_records(zone@, ttl, *soa, nameservers@));
    Some(records)
}

/// One write to a store.
pub enum Write {
    /// Mark a zone.
    Zone(DomainName),
    /// Add a record at a name in a zone.
    Record { zone: DomainName, name: DomainName, record: Record },
}

/// The value of a write.
pub enum WriteView {
    Zone(NameView),
    Record { zone: NameView, name: NameView, record: RecordView },
}

impl View for Write {
    type V = WriteView;

    open spec fn view(&self) -> WriteView {
        match self {
            Write::Zone(zone) => WriteView::Zone(zone@),
            Write::Record { zone, name, record } => WriteView::Record { zone: zone@, name: name@, record: record@ },
        }
    }
}

/// The values of the writes held in a vector, in their order.
pub open spec fn writes_view(writes: Vec<Write>) -> Seq<WriteView> {
    Seq::new(writes.len() as nat, |i: int| writes[i]@)
}

/// The store after one write.
pub open spec fn spec_write(store: StoreView, write: WriteView) -> StoreView {
    match write {
        WriteView::Zone(zone) => spec_add_zone(store, lower_labels(zone.labels)),
        WriteView::Record { zone, name, record } => spec_add_record(
            store,
            lower_labels(zone.labels),
            lower_labels(name.labels),
            record,
        ),
    }
}

/// The store after the first `n` of the writes, in their order.
pub open spec fn spec_writes(store: StoreView, writes: Seq<WriteView>, n: int) -> StoreView
    decreases n,
{
    if n <= 0 {
        store
    } else {
        spec_write(spec_writes(store, writes, n - 1), writes[n - 1])
    }
}

/// The writes that set up a zone, in their order: the zone is marked
/// first, then each of its records is added at the zone's own name.
pub open spec fn spec_zone_writes(zone: NameView, records: Seq<RecordView>) -> Seq<WriteView> {
    Seq::new(
        records.len() + 1,
        |i: int|
            if i == 0 {
                WriteView::Zone(zone)
            } else {
                WriteView::Record { zone, name: zone, record: records[i - 1] }
            },
    )
}

/// Makes the writes of a list in a store, in their order, up to the first
/// that fails, and says how many were made.
pub fn apply<S: Storage>(storage: &mut S, writes: &Vec<Write>) -> (done: usize)
    ensures
        done <= writes.len(),
        final(storage).model() == spec_writes(old(storage).model(), writes_view(*writes), done as int),
        old(storage).reliable() ==> done == writes.len(),
        final(storage).reliable() == old(storage).reliable(),
{
    let mut done: usize = 0;
    while done < writes.len()
        invariant
            done <= writes.len(),
            storage.model() == spec_writes(old(storage).model(), writes_view(*writes), done as int),
            storage.reliable() == old(storage).reliable(),
        decreases writes.len() - done,
    {
        assert(writes_view(*writes)[done as int] == writes[done as int]@);
        let made = match &writes[done] {
            Write::Zone(zone) => storage.add_zone(zone),
            Write::Record { zone, name, record } => storage.add_record(
                zone,
                name,
                StorageRecord { record: record.clone() },
            ),
        };
        match made {
            Ok(()) => {},
            Err(_) => {
                return done;
            },
        }
        done = done + 1;
    }
    done
}

/// The store after the records of `records` from number `from` on were
/// added at `name` in `zone`, in their order.
pub open spec fn spec_add_records(
    store: StoreView,
    zone: Seq<Seq<u8>>,
    name: Seq<Seq<u8>>,
    records: Seq<RecordView>,
    n: int,
) -> StoreView
    decreases n,
{
    if n <= 0 {
        store
    } else {
        spec_add_record(spec_add_records(store, zone, name, records, n - 1), zone, name, records[n - 1])
    }
}

/// The store after a zone was set up: the zone is marked, and its records
/// are held at the zone's own name, in their order.
pub open spec fn spec_set_up_zone(store: StoreView, zone: Seq<Seq<u8>>, records: Seq<RecordView>) -> StoreView {
    spec_add_records(spec_add_zone(store, zone), zone, zone, records, records.len() as int)
}

/// Whether a store is what another becomes when the setting up of a zone
/// ends with a write that fails: the writes before that one are made, in
/// their order, and no other.
pub open spec fn written_in_part(before: StoreView, zone: NameView, records: Seq<RecordView>, after: StoreView) -> bool {
    exists|n: int|
        0 <= n <= records.len() && after == #[trigger] spec_writes(before, spec_zone_writes(zone, records), n)
}

/// The writes that set up a zone set it up: after the first of them the
/// zone is marked, and after each further one another of its records is
/// held at its name.
pub proof fn lemma_zone_writes(store: StoreView, zone: NameView, records: Seq<RecordView>, n: int)
    requires
        1 <= n <= records.len() + 1,
    ensures
        spec_writes(store, spec_zone_writes(zone, records), n) == spec_add_records(
            spec_add_zone(store, lower_labels(zone.labels)),
            lower_labels(zone.labels),
            lower_labels(zone.labels),
            records,
            n - 1,
        ),
    decreases n,
{
    reveal_with_fuel(spec_writes, 2);
    if n > 1 {
        lemma_zone_writes(store, zone, records, n - 1);
    }
}

/// Whether `texts` are the texts of a list of names that holds exactly the
/// zones `zones`.
pub open spec fn lists_zones(texts: Seq<Seq<char>>, zones: Set<Seq<Seq<u8>>>) -> bool {
    exists|names: Seq<crate::name::NameView>|
        {
            &&& names.len() == texts.len()
            &&& forall|labels: Seq<Seq<u8>>| #[trigger] name_in(names, labels) <==> zones.contains(labels)
            &&& forall|i: int|
                0 <= i < names.len() ==> #[trigger] texts[i] == crate::name::spec_name_text(
                    names[i].labels,
                    names[i].fqdn,
                )
        }
}

/// The characters of the texts held in a vector, in their order.
pub open spec fn texts_chars(texts: Vec<String>) -> Seq<Seq<char>> {
    Seq::new(texts.len() as nat, |i: int| texts[i]@)
}

/// The names of all zones, as texts.
pub fn list_zones<S: Storage>(storage: &S) -> (out: Result<Vec<String>, StatusCode>)
    ensures
        storage.reliable() ==> out is Ok,
        out matches Err(status) ==> status == StatusCode::InternalServerError,
        out matches Ok(texts) ==> lists_zones(texts_chars(texts), storage.model().zones),
{
    match storage.zones() {
        Err(_) => Err(StatusCode::InternalServerError),
        Ok(zones) => Ok(zone_texts(&zones)),
    }
}

/// The texts of the names of a list, in their order.
pub fn zone_texts(zones: &Vec<DomainName>) -> (out: Vec<String>)
    ensures
        out.len() == zones.len(),
        forall|i: int|
            0 <= i < zones.len() ==> (#[trigger] out[i])@ == crate::name::spec_name_text(
                zones[i]@.labels,
                zones[i]@.fqdn,
            ),
        forall|model: Set<Seq<Seq<u8>>>|
            (forall|labels: Seq<Seq<u8>>| name_in(names_view(*zones), labels) <==> model.contains(labels))
                ==> #[trigger] lists_zones(texts_chars(out), model),
{
    let mut texts: Vec<String> = Vec::new();
    let mut i: usize = 0;
    while i < zones.len()
        invariant
            i <= zones.len(),
            texts.len() == i,
            forall|k: int|
                0 <= k < i ==> (#[trigger] texts[k])@ == crate::name::spec_name_text(
                    zones[k]@.labels,
                    zones[k]@.fqdn,
                ),
        decreases zones.len() - i,
    {
        texts.push(zones[i].to_text());
        i = i + 1;
    }
    proof {
        let names = names_view(*zones);
        assert forall|i: int| 0 <= i < names.len() implies #[trigger] texts_chars(texts)[i]
            == crate::name::spec_name_text(names[i].labels, names[i].fqdn) by {
            assert(texts[i]@ == crate::name::spec_name_text(zones[i]@.labels, zones[i]@.fqdn));
        }
        assert(names.len() == texts_chars(texts).len());
    }
    texts
}

/// Whether a name may be used in a request for records: it has to be fully
/// qualified, else the request is a bad one.
pub fn require_fqdn(name: &DomainName) -> (out: Result<(), StatusCode>)
    ensures
        name@.fqdn ==> out is Ok,
        !name@.fqdn ==> out == Err::<(), StatusCode>(StatusCode::BadRequest),
{
    if name.is_fqdn() {
        Ok(())
    } else {
        Err(StatusCode::BadRequest)
    }
}

/// Whether the names of a zone and of a name in it may be used in a
/// request for records: both have to be fully qualified.
pub fn require_both_fqdn(zone: &DomainName, domain: &DomainName) -> (out: Result<(), StatusCode>)
    ensures
        zone@.fqdn && domain@.fqdn ==> out is Ok,
        !(zone@.fqdn && domain@.fqdn) ==> out == Err::<(), StatusCode>(StatusCode::BadRequest),
{
    match require_fqdn(zone) {
        Ok(()) => require_fqdn(domain),
        Err(status) => Err(status),
    }
}

/// Whether a zone may be set up: its name has to be fully qualified, and it
/// must not be among the zones that exist.
pub fn check_new_zone(zone: &DomainName, existing: &Vec<DomainName>) -> (out: Result<(), StatusCode>)
    ensures
        !zone@.fqdn ==> out == Err::<(), StatusCode>(StatusCode::InternalServerError),
        zone@.fqdn && name_in(names_view(*existing), lower_labels(zone@.labels)) ==> out == Err::<(), StatusCode>(
            StatusCode::Conflict,
        ),
        zone@.fqdn && !name_in(names_view(*existing), lower_labels(zone@.labels)) ==> out is Ok,
{
    if !zone.is_fqdn() {
        return Err(StatusCode::InternalServerError);
    }
    let key = zone.to_lowercase();
    let mut i: usize = 0;
    while i < existing.len()
        invariant
            i <= existing.len(),
            key@.labels == lower_labels(zone@.labels),
            zone@.fqdn,
            forall|k: int| 0 <= k < i ==> (#[trigger] names_view(*existing)[k]).labels != key@.labels,
        decreases existing.len() - i,
    {
        if existing[i].same_name(&key) {
            assert(names_view(*existing)[i as int].labels == key@.labels);
            return Err(StatusCode::Conflict);
        }
        i = i + 1;
    }
    Ok(())
}

/// The status with which the setting up of a zone is refused before
/// anything is written, if it is refused. `exists` says whether the zone
/// exists.
///
/// | condition, in this order | status |
/// |---|---|
/// | the name of the zone is not fully qualified | 500 |
/// | the zone exists | 409 |
/// | a name cannot stand in the data of a record | 400 |
pub open spec fn zone_refusal(zone: NameView, exists: bool, soa: Soa, nameservers: Seq<NameServer>) -> Option<
    StatusCode,
> {
    if !zone.fqdn {
        Some(StatusCode::InternalServerError)
    } else if exists {
        Some(StatusCode::Conflict)
    } else if !zone_encodable(soa, nameservers) {
        Some(StatusCode::BadRequest)
    } else {
        None
    }
}

/// What is to be written to set up a zone, when `existing` are the zones
/// that the store lists: the zone is marked, then its SOA record and its NS
/// records are added at the zone's own name, each with the zone as its
/// owner. The status of the refusal where the zone may not be set up: the
/// zone exists where one of `existing` has its labels.
pub fn plan_add_zone(
    zone: &DomainName,
    existing: &Vec<DomainName>,
    ttl: u32,
    soa: &Soa,
    nameservers: &Vec<NameServer>,
) -> (out: Result<Vec<Write>, StatusCode>)
    ensures
        match zone_refusal(
            zone@,
            name_in(names_view(*existing), lower_labels(zone@.labels)),
            *soa,
            nameservers@,
        ) {
            Some(status) => out == Err::<Vec<Write>, StatusCode>(status),
            None => (out matches Ok(writes) && writes_view(writes) == spec_zone_writes(
                zone@,
                spec_zone_records(zone@, ttl, *soa, nameservers@),
            )),
        },
{
    match check_new_zone(zone, existing) {
        Ok(()) => {},
        Err(status) => {
            return Err(status);
        },
    }
    let records = match zone_records(zone, ttl, soa, nameservers) {
        Some(records) => records,
        None => {
            return Err(StatusCode::BadRequest);
        },
    };
    let ghost made = plain_records_view(records);
    let mut writes: Vec<Write> = Vec::new();
    writes.push(Write::Zone(zone.clone()));
    let mut i: usize = 0;
    while i < records.len()
        invariant
            i <= records.len(),
            made == plain_records_view(records),
            writes.len() == i + 1,
            writes[0]@ == WriteView::Zone(zone@),
            forall|k: int|
                1 <= k <= i ==> (#[trigger] writes[k])@ == (WriteView::Record {
                    zone: zone@,
                    name: zone@,
                    record: made[k - 1],
                }),
        decreases records.len() - i,
    {
        assert(made[i as int] == records[i as int]@);
        writes.push(Write::Record { zone: zone.clone(), name: zone.clone(), record: records[i].clone() });
        i = i + 1;
    }
    assert(writes_view(writes) =~= spec_zone_writes(zone@, made));
    Ok(writes)
}

/// What is to be written to add a record at `domain` in `zone`. Both names
/// have to be fully qualified, else the request is a bad one.
pub fn plan_add_record(zone: &DomainName, domain: &DomainName, record: Record) -> (out: Result<Write, StatusCode>)
    ensures
        !(zone@.fqdn && domain@.fqdn) ==> out == Err::<Write, StatusCode>(StatusCode::BadRequest),
        zone@.fqdn && domain@.fqdn ==> (out matches Ok(write) && write@ == (WriteView::Record {
            zone: zone@,
            name: domain@,
            record: record@,
        })),
{
    match require_both_fqdn(zone, domain) {
        Ok(()) => Ok(Write::Record { zone: zone.clone(), name: domain.clone(), record }),
        Err(status) => Err(status),
    }
}

/// Sets up a new zone: marks it, and stores its SOA record and its NS
/// records at the zone's own name.
///
/// | condition, in this order | status |
/// |---|---|
/// | the zones cannot be listed | 500 |
/// | the name of the zone is not fully qualified | 500 |
/// | the zone exists | 409 |
/// | a name cannot stand in the data of a record | 400 |
/// | a write fails | 500 |
/// | else | 201 |
///
/// Where a write fails, the writes before it stay made.
pub fn add_zone<S: Storage>(
    storage: &mut S,
    zone: &DomainName,
    ttl: u32,
    soa: &Soa,
    nameservers: &Vec<NameServer>,
) -> (out: StatusCode)
    ensures
        final(storage).reliable() == old(storage).reliable(),
        out == StatusCode::Created ==> zone@.fqdn && !old(storage).model().zones.contains(
            lower_labels(zone@.labels),
        ) && zone_encodable(*soa, nameservers@) && final(storage).model() == spec_set_up_zone(
            old(storage).model(),
            lower_labels(zone@.labels),
            spec_zone_records(zone@, ttl, *soa, nameservers@),
        ),
        out == StatusCode::Conflict ==> zone@.fqdn && old(storage).model().zones.contains(
            lower_labels(zone@.labels),
        ) && final(storage).model() == old(storage).model(),
        out == StatusCode::BadRequest ==> zone@.fqdn && !zone_encodable(*soa, nameservers@) && final(storage).model()
            == old(storage).model(),
        out == StatusCode::InternalServerError ==> written_in_part(
            old(storage).model(),
            zone@,
            spec_zone_records(zone@, ttl, *soa, nameservers@),
            final(storage).model(),
        ),
        !zone@.fqdn ==> out == StatusCode::InternalServerError && final(storage).model() == old(storage).model(),
        old(storage).reliable() ==> out == (match zone_refusal(
            zone@,
            old(storage).model().zones.contains(lower_labels(zone@.labels)),
            *soa,
            nameservers@,
        ) {
            Some(status) => status,
            None => StatusCode::Created,
        }),
{
    let ghost start = storage.model();
    let ghost records = spec_zone_records(zone@, ttl, *soa, nameservers@);
    let ghost plan = spec_zone_writes(zone@, records);
    assert(records.len() == nameservers.len() + 1);
    assert(plan.len() == records.len() + 1);
    let existing = match storage.zones() {
        Ok(zones) => zones,
        Err(_) => {
            assert(storage.model() == spec_writes(start, plan, 0));
            return StatusCode::InternalServerError;
        },
    };
    let planned = plan_add_zone(zone, &existing, ttl, soa, nameservers);
    let writes = match planned {
        Ok(writes) => writes,
        Err(status) => {
            assert(storage.model() == spec_writes(start, plan, 0));
            return status;
        },
    };
    assert(writes_view(writes) == plan);
    let done = apply(storage, &writes);
    assert(storage.model() == spec_writes(start, plan, done as int));
    if done == writes.len() {
        proof {
            lemma_zone_writes(start, zone@, records, done as int);
        }
        StatusCode::Created
    } else {
        StatusCode::InternalServerError
    }
}

/// All records at `domain` in `zone`. Both names have to be fully
/// qualified.
pub fn list_domain_records<S: Storage>(storage: &S, zone: &DomainName, domain: &DomainName) -> (out: Result<
    Vec<StorageRecord>,
    StatusCode,
>)
    ensures
        !(zone@.fqdn && domain@.fqdn) ==> out == Err::<Vec<StorageRecord>, StatusCode>(StatusCode::BadRequest),
        zone@.fqdn && domain@.fqdn ==> match out {
            Ok(records) => records_view(records).to_multiset() == records_at(
                storage.model().log,
                lower_labels(zone@.labels),
                lower_labels(domain@.labels),
            ).to_multiset(),
            Err(status) => status == StatusCode::InternalServerError,
        },
        storage.reliable() && zone@.fqdn && domain@.fqdn ==> out is Ok,
{
    match require_both_fqdn(zone, domain) {
        Ok(()) => {},
        Err(status) => {
            return Err(status);
        },
    }
    match storage.list_records(zone, domain) {
        Ok(records) => Ok(records),
        Err(_) => Err(StatusCode::InternalServerError),
    }
}

/// The names in `zone` that records are held at. The name of the zone has
/// to be fully qualified.
pub fn list_zone_domains<S: Storage>(storage: &S, zone: &DomainName) -> (out: Result<Vec<DomainName>, StatusCode>)
    ensures
        !zone@.fqdn ==> out == Err::<Vec<DomainName>, StatusCode>(StatusCode::BadRequest),
        zone@.fqdn ==> match out {
            Ok(names) => forall|labels: Seq<Seq<u8>>|
                name_in(names_view(names), labels) <==> domains_of(
                    storage.model().log,
                    lower_labels(zone@.labels),
                ).contains(labels),
            Err(status) => status == StatusCode::InternalServerError,
        },
        storage.reliable() && zone@.fqdn ==> out is Ok,
{
    match require_fqdn(zone) {
        Ok(()) => {},
        Err(status) => {
            return Err(status);
        },
    }
    match storage.list_domains(zone) {
        Ok(names) => Ok(names),
        Err(_) => Err(StatusCode::InternalServerError),
    }
}

/// Adds one record at `domain` in `zone`. Both names have to be fully
/// qualified.
pub fn add_record<S: Storage>(storage: &mut S, zone: &DomainName, domain: &DomainName, record: Record) -> (out:
    StatusCode)
    ensures
        !(zone@.fqdn && domain@.fqdn) ==> out == StatusCode::BadRequest && final(storage).model() == old(
            storage,
        ).model(),
        zone@.fqdn && domain@.fqdn ==> (out == StatusCode::Created || out == StatusCode::InternalServerError),
        out == StatusCode::Created ==> final(storage).model() == spec_add_record(
            old(storage).model(),
            lower_labels(zone@.labels),
            lower_labels(domain@.labels),
            record@,
        ),
        out == StatusCode::InternalServerError ==> final(storage).model() == old(storage).model(),
        old(storage).reliable() && zone@.fqdn && domain@.fqdn ==> out == StatusCode::Created,
        final(storage).reliable() == old(storage).reliable(),
{
    let write = match plan_add_record(zone, domain, record) {
        Ok(write) => write,
        Err(status) => {
            return status;
        },
    };
    let mut writes: Vec<Write> = Vec::new();
    writes.push(write);
    assert(writes_view(writes) =~= seq![write@]);
    reveal_with_fuel(spec_writes, 2);
    if apply(storage, &writes) == 1 {
        StatusCode::Created
    } else {
        StatusCode::InternalServerError
    }
}

/// Adding records at a name leaves the zones as they are and puts the
/// records behind those that the store held at the name.
pub proof fn lemma_added_records(
    store: StoreView,
    zone: Seq<Seq<u8>>,
    name: Seq<Seq<u8>>,
    records: Seq<RecordView>,
    n: int,
)
    requires
        0 <= n <= records.len(),
    ensures
        spec_add_records(store, zone, name, records, n).zones == store.zones,
        records_at(spec_add_records(store, zone, name, records, n).log, zone, name) == records_at(
            store.log,
            zone,
            name,
        ) + records.take(n),
    decreases n,
{
    if n > 0 {
        lemma_added_records(store, zone, name, records, n - 1);
        let before = spec_add_records(store, zone, name, records, n - 1);
        let after = spec_add_record(before, zone, name, records[n - 1]);
        assert(after.log.drop_last() =~= before.log);
        assert(records_at(store.log, zone, name) + records.take(n) =~= (records_at(store.log, zone, name)
            + records.take(n - 1)).push(records[n - 1]));
    } else {
        assert(records_at(store.log, zone, name) + records.take(0) =~= records_at(store.log, zone, name));
    }
}

/// A zone that was set up is a zone of the store, and the store holds at
/// the apex of the zone its records in their order, behind what it held
/// there before. So the lookup of the SOA records of the zone finds the
/// record, and the pipeline can answer for the zone.
pub proof fn lemma_set_up_zone(store: StoreView, zone: Seq<Seq<u8>>, records: Seq<RecordView>)
    ensures
        ({
            let after = spec_set_up_zone(store, zone, records);
            &&& after.zones == store.zones.insert(zone)
            &&& records_at(after.log, zone, zone) == records_at(store.log, zone, zone) + records
            &&& forall|i: int|
                0 <= i < records.len() ==> (crate::storage::spec_lookup(
                    after,
                    zone,
                    zone,
                    (#[trigger] records[i]).rr_type,
                ) matches Some(found) && found.contains(records[i]))
        }),
{
    let marked = spec_add_zone(store, zone);
    let after = spec_set_up_zone(store, zone, records);
    lemma_added_records(marked, zone, zone, records, records.len() as int);
    assert(records.take(records.len() as int) =~= records);
    let at = records_at(after.log, zone, zone);
    let held = records_at(store.log, zone, zone);
    assert(at == held + records);
    crate::storage::lemma_records_at(after.log, zone, zone);
    assert forall|i: int| 0 <= i < records.len() implies (crate::storage::spec_lookup(
        after,
        zone,
        zone,
        (#[trigger] records[i]).rr_type,
    ) matches Some(found) && found.contains(records[i])) by {
        assert(at[held.len() + i] == records[i]);
        crate::storage::lemma_of_type(at, records[i].rr_type);
    }
}

/// The records that a zone is set up with are its SOA record and its NS
/// records, and the owner of each is the zone.
pub proof fn lemma_zone_records(zone: NameView, ttl: u32, soa: Soa, nameservers: Seq<NameServer>)
    ensures
        ({
            let records = spec_zone_records(zone, ttl, soa, nameservers);
            &&& records.len() == nameservers.len() + 1
            &&& records[0].rr_type == RecordType::SOA
            &&& forall|i: int| 1 <= i < records.len() ==> (#[trigger] records[i]).rr_type == RecordType::NS
            &&& forall|i: int| 0 <= i < records.len() ==> (#[trigger] records[i]).name == zone
        }),
{
}

} // verus!
