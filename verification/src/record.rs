//! Record types, classes and resource records.

use crate::name::DomainName;
use crate::name::NameView;
use vstd::prelude::*;

verus! {

/// The type of a resource record.
#[derive(Debug, Clone, Copy, PartialEq, Eq, Hash, Structural)]
pub enum RecordType {
    A,
    AAAA,
    ANAME,
    ANY,
    AXFR,
    CAA,
    CDS,
    CDNSKEY,
    CNAME,
    CSYNC,
    DNSKEY,
    DS,
    HINFO,
    HTTPS,
    IXFR,
    KEY,
    MX,
    NAPTR,
    NS,
    NSEC,
    NSEC3,
    NSEC3PARAM,
    NULL,
    OPENPGPKEY,
    OPT,
    PTR,
    RRSIG,
    SIG,
    SOA,
    SRV,
    SSHFP,
    SVCB,
    TLSA,
    TSIG,
    TXT,
    /// Type 0, which names no record type.
    ZERO,
    /// A type this library has no name for, by its number.
    Unknown(u16),
}

/// The number that stands for a record type on the wire.
pub open spec fn type_code(t: RecordType) -> u16 {
    match t {
        RecordType::A => 1,
        RecordType::AAAA => 28,
        RecordType::ANAME => 65305,
        RecordType::ANY => 255,
        RecordType::AXFR => 252,
        RecordType::CAA => 257,
        RecordType::CDS => 59,
        RecordType::CDNSKEY => 60,
        RecordType::CNAME => 5,
        RecordType::CSYNC => 62,
        RecordType::DNSKEY => 48,
        RecordType::DS => 43,
        RecordType::HINFO => 13,
        RecordType::HTTPS => 65,
        RecordType::IXFR => 251,
        RecordType::KEY => 25,
        RecordType::MX => 15,
        RecordType::NAPTR => 35,
        RecordType::NS => 2,
        RecordType::NSEC => 47,
        RecordType::NSEC3 => 50,
        RecordType::NSEC3PARAM => 51,
        RecordType::NULL => 10,
        RecordType::OPENPGPKEY => 61,
        RecordType::OPT => 41,
        RecordType::PTR => 12,
        RecordType::RRSIG => 46,
        RecordType::SIG => 24,
        RecordType::SOA => 6,
        RecordType::SRV => 33,
        RecordType::SSHFP => 44,
        RecordType::SVCB => 64,
        RecordType::TLSA => 52,
        RecordType::TSIG => 250,
        RecordType::TXT => 16,
        RecordType::ZERO => 0,
        RecordType::Unknown(code) => code,
    }
}

/// The record type that a number stands for; a number without a name gives
/// `Unknown`.
pub open spec fn type_of_code(code: u16) -> RecordType {
    if code == 1 {
        RecordType::A
    } else if code == 28 {
        RecordType::AAAA
    } else if code == 65305 {
        RecordType::ANAME
    } else if code == 255 {
        RecordType::ANY
    } else if code == 252 {
        RecordType::AXFR
    } else if code == 257 {
        RecordType::CAA
    } else if code == 59 {
        RecordType::CDS
    } else if code == 60 {
        RecordType::CDNSKEY
    } else if code == 5 {
        RecordType::CNAME
    } else if code == 62 {
        RecordType::CSYNC
    } else if code == 48 {
        RecordType::DNSKEY
    } else if code == 43 {
        RecordType::DS
    } else if code == 13 {
        RecordType::HINFO
    } else if code == 65 {
        RecordType::HTTPS
    } else if code == 251 {
        RecordType::IXFR
    } else if code == 25 {
        RecordType::KEY
    } else if code == 15 {
        RecordType::MX
    } else if code == 35 {
        RecordType::NAPTR
    } else if code == 2 {
        RecordType::NS
    } else if code == 47 {
        RecordType::NSEC
    } else if code == 50 {
        RecordType::NSEC3
    } else if code == 51 {
        RecordType::NSEC3PARAM
    } else if code == 10 {
        RecordType::NULL
    } else if code == 61 {
        RecordType::OPENPGPKEY
    } else if code == 41 {
        RecordType::OPT
    } else if code == 12 {
        RecordType::PTR
    } else if code == 46 {
        RecordType::RRSIG
    } else if code == 24 {
        RecordType::SIG
    } else if code == 6 {
        RecordType::SOA
    } else if code == 33 {
        RecordType::SRV
    } else if code == 44 {
        RecordType::SSHFP
    } else if code == 64 {
        RecordType::SVCB
    } else if code == 52 {
        RecordType::TLSA
    } else if code == 250 {
        RecordType::TSIG
    } else if code == 16 {
        RecordType::TXT
    } else if code == 0 {
        RecordType::ZERO
    } else {
        RecordType::Unknown(code)
    }
}

/// A record type in the form that `from_code` gives: `Unknown` holds no
/// number that has a name.
pub open spec fn type_is_canonical(t: RecordType) -> bool {
    type_of_code(type_code(t)) == t
}

/// The name of a record type. A type without a name is called `Unknown`.
pub open spec fn name_of_type(t: RecordType) -> Seq<char> {
    match t {
        RecordType::A => "A"@,
        RecordType::AAAA => "AAAA"@,
        RecordType::ANAME => "ANAME"@,
        RecordType::ANY => "ANY"@,
        RecordType::AXFR => "AXFR"@,
        RecordType::CAA => "CAA"@,
        RecordType::CDS => "CDS"@,
        RecordType::CDNSKEY => "CDNSKEY"@,
        RecordType::CNAME => "CNAME"@,
        RecordType::CSYNC => "CSYNC"@,
        RecordType::DNSKEY => "DNSKEY"@,
        RecordType::DS => "DS"@,
        RecordType::HINFO => "HINFO"@,
        RecordType::HTTPS => "HTTPS"@,
        RecordType::IXFR => "IXFR"@,
        RecordType::KEY => "KEY"@,
        RecordType::MX => "MX"@,
        RecordType::NAPTR => "NAPTR"@,
        RecordType::NS => "NS"@,
        RecordType::NSEC => "NSEC"@,
        RecordType::NSEC3 => "NSEC3"@,
        RecordType::NSEC3PARAM => "NSEC3PARAM"@,
        RecordType::NULL => "NULL"@,
        RecordType::OPENPGPKEY => "OPENPGPKEY"@,
        RecordType::OPT => "OPT"@,
        RecordType::PTR => "PTR"@,
        RecordType::RRSIG => "RRSIG"@,
        RecordType::SIG => "SIG"@,
        RecordType::SOA => "SOA"@,
        RecordType::SRV => "SRV"@,
        RecordType::SSHFP => "SSHFP"@,
        RecordType::SVCB => "SVCB"@,
        RecordType::TLSA => "TLSA"@,
        RecordType::TSIG => "TSIG"@,
        RecordType::TXT => "TXT"@,
        RecordType::ZERO => "ZERO"@,
        RecordType::Unknown(_) => "Unknown"@,
    }
}

/// The name of the record type with the given number.
pub open spec fn spec_type_text(code: u16) -> Seq<char> {
    name_of_type(type_of_code(code))
}

/// Asks `trust-dns-proto` for the name of a record type: the number becomes a
/// `trust_dns_proto::rr::RecordType` by `From<u16>`, and that a `&'static str`
/// by `From<RecordType>`. The two give each type that has a name its name,
/// and `Unknown` for every other number.
#[verifier::external_body]
fn type_text(code: u16) -> (out: String)
    ensures
        out@ == spec_type_text(code),
{
    let text: &'static str = trust_dns_proto::rr::RecordType::from(code).into();
    text.to_string()
}

/// Going to the number and back gives the same type, for every type that
/// `from_code` can give.
pub proof fn lemma_code_round_trip(code: u16)
    ensures
        type_code(type_of_code(code)) == code,
        type_is_canonical(type_of_code(code)),
{
}

impl RecordType {
    /// The number that stands for the type on the wire.
    pub fn code(self) -> (out: u16)
        ensures
            out == type_code(self),
    {
        match self {
            RecordType::A => 1,
            RecordType::AAAA => 28,
            RecordType::ANAME => 65305,
            RecordType::ANY => 255,
            RecordType::AXFR => 252,
            RecordType::CAA => 257,
            RecordType::CDS => 59,
            RecordType::CDNSKEY => 60,
            RecordType::CNAME => 5,
            RecordType::CSYNC => 62,
            RecordType::DNSKEY => 48,
            RecordType::DS => 43,
            RecordType::HINFO => 13,
            RecordType::HTTPS => 65,
            RecordType::IXFR => 251,
            RecordType::KEY => 25,
            RecordType::MX => 15,
            RecordType::NAPTR => 35,
            RecordType::NS => 2,
            RecordType::NSEC => 47,
            RecordType::NSEC3 => 50,
            RecordType::NSEC3PARAM => 51,
            RecordType::NULL => 10,
            RecordType::OPENPGPKEY => 61,
            RecordType::OPT => 41,
            RecordType::PTR => 12,
            RecordType::RRSIG => 46,
            RecordType::SIG => 24,
            RecordType::SOA => 6,
            RecordType::SRV => 33,
            RecordType::SSHFP => 44,
            RecordType::SVCB => 64,
            RecordType::TLSA => 52,
            RecordType::TSIG => 250,
            RecordType::TXT => 16,
            RecordType::ZERO => 0,
            RecordType::Unknown(code) => code,
        }
    }

    /// The type that a number stands for.
    pub fn from_code(code: u16) -> (out: RecordType)
        ensures
            out == type_of_code(code),
    {
        match code {
            1 => RecordType::A,
            28 => RecordType::AAAA,
            65305 => RecordType::ANAME,
            255 => RecordType::ANY,
            252 => RecordType::AXFR,
            257 => RecordType::CAA,
            59 => RecordType::CDS,
            60 => RecordType::CDNSKEY,
            5 => RecordType::CNAME,
            62 => RecordType::CSYNC,
            48 => RecordType::DNSKEY,
            43 => RecordType::DS,
            13 => RecordType::HINFO,
            65 => RecordType::HTTPS,
            251 => RecordType::IXFR,
            25 => RecordType::KEY,
            15 => RecordType::MX,
            35 => RecordType::NAPTR,
            2 => RecordType::NS,
            47 => RecordType::NSEC,
            50 => RecordType::NSEC3,
            51 => RecordType::NSEC3PARAM,
            10 => RecordType::NULL,
            61 => RecordType::OPENPGPKEY,
            41 => RecordType::OPT,
            12 => RecordType::PTR,
            46 => RecordType::RRSIG,
            24 => RecordType::SIG,
            6 => RecordType::SOA,
            33 => RecordType::SRV,
            44 => RecordType::SSHFP,
            64 => RecordType::SVCB,
            52 => RecordType::TLSA,
            250 => RecordType::TSIG,
            16 => RecordType::TXT,
            0 => RecordType::ZERO,
            _ => RecordType::Unknown(code),
        }
    }

    /// The name of the type, as `trust-dns-proto` writes it.
    pub fn text(self) -> (out: String)
        ensures
            out@ == spec_type_text(type_code(self)),
    {
        type_text(self.code())
    }
}

/// The class of a query or a record.
#[derive(Debug, Clone, Copy, PartialEq, Eq, Hash, Structural)]
pub enum DnsClass {
    /// Internet.
    IN,
    /// Chaos.
    CH,
    /// Hesiod.
    HS,
    /// The query class NONE.
    NONE,
    /// The query class ANY.
    ANY,
    /// The class field of an OPT record, which holds a payload size.
    OPT(u16),
}

/// The characters of the short name of a class.
pub open spec fn class_text(class: DnsClass) -> Seq<char> {
    match class {
        DnsClass::IN => seq!['I', 'N'],
        DnsClass::CH => seq!['C', 'H'],
        DnsClass::HS => seq!['H', 'S'],
        DnsClass::NONE => seq!['N', 'O', 'N', 'E'],
        DnsClass::ANY => seq!['A', 'N', 'Y'],
        DnsClass::OPT(_) => seq!['O', 'P', 'T'],
    }
}

impl DnsClass {
    /// The short name of the class.
    pub fn text(self) -> (out: &'static str)
        ensures
            out@ == class_text(self),
    {
        proof {
            reveal_strlit("IN");
            reveal_strlit("CH");
            reveal_strlit("HS");
            reveal_strlit("NONE");
            reveal_strlit("ANY");
            reveal_strlit("OPT");
        }
        let out = match self {
            DnsClass::IN => "IN",
            DnsClass::CH => "CH",
            DnsClass::HS => "HS",
            DnsClass::NONE => "NONE",
            DnsClass::ANY => "ANY",
            DnsClass::OPT(_) => "OPT",
        };
        assert(out@ =~= class_text(self));
        out
    }
}

/// The mathematical value of a [`Record`].
pub struct RecordView {
    pub name: NameView,
    pub rr_type: RecordType,
    pub dns_class: DnsClass,
    pub ttl: u32,
    pub rdata: Seq<u8>,
}

/// A resource record: owner name, type, class, time to live, and the record
/// data as the bytes that go on the wire.
pub struct Record {
    name: DomainName,
    rr_type: RecordType,
    dns_class: DnsClass,
    ttl: u32,
    rdata: Vec<u8>,
}

impl View for Record {
    type V = RecordView;

    closed spec fn view(&self) -> RecordView {
        RecordView {
            name: self.name@,
            rr_type: self.rr_type,
            dns_class: self.dns_class,
            ttl: self.ttl,
            rdata: self.rdata@,
        }
    }
}

/// The record `r` under another owner name.
pub open spec fn with_name(r: RecordView, name: NameView) -> RecordView {
    RecordView { name, ..r }
}

fn copy_rdata(src: &Vec<u8>) -> (out: Vec<u8>)
    ensures
        out@ == src@,
{
    let mut out: Vec<u8> = Vec::new();
    let mut i: usize = 0;
    while i < src.len()
        invariant
            i <= src.len(),
            out@ == src@.subrange(0, i as int),
        decreases src.len() - i,
    {
        out.push(src[i]);
        i = i + 1;
        assert(out@ =~= src@.subrange(0, i as int));
    }
    assert(src@.subrange(0, src.len() as int) =~= src@);
    out
}

impl Record {
    /// A record of class IN.
    pub fn from_rdata(name: DomainName, rr_type: RecordType, ttl: u32, rdata: Vec<u8>) -> (out: Record)
        ensures
            out@ == (RecordView { name: name@, rr_type, dns_class: DnsClass::IN, ttl, rdata: rdata@ }),
    {
        Record { name, rr_type, dns_class: DnsClass::IN, ttl, rdata }
    }

    /// A record of any class.
    pub fn with_class(
        name: DomainName,
        rr_type: RecordType,
        dns_class: DnsClass,
        ttl: u32,
        rdata: Vec<u8>,
    ) -> (out: Record)
        ensures
            out@ == (RecordView { name: name@, rr_type, dns_class, ttl, rdata: rdata@ }),
    {
        Record { name, rr_type, dns_class, ttl, rdata }
    }

    /// The owner name.
    pub fn name(&self) -> (out: &DomainName)
        ensures
            out@ == self@.name,
    {
        &self.name
    }

    /// The type of the record.
    pub fn record_type(&self) -> (out: RecordType)
        ensures
            out == self@.rr_type,
    {
        self.rr_type
    }

    /// The class of the record.
    pub fn dns_class(&self) -> (out: DnsClass)
        ensures
            out == self@.dns_class,
    {
        self.dns_class
    }

    /// The time to live, in seconds.
    pub fn ttl(&self) -> (out: u32)
        ensures
            out == self@.ttl,
    {
        self.ttl
    }

    /// The record data.
    pub fn rdata(&self) -> (out: &Vec<u8>)
        ensures
            out@ == self@.rdata,
    {
        &self.rdata
    }

    /// Replaces the owner name and leaves the rest as it is.
    pub fn set_name(&mut self, name: DomainName)
        ensures
            final(self)@ == with_name(old(self)@, name@),
    {
        self.name = name;
    }
}

impl Clone for Record {
    fn clone(&self) -> (out: Record)
        ensures
            out@ == self@,
    {
        Record {
            name: self.name.clone(),
            rr_type: self.rr_type,
            dns_class: self.dns_class,
            ttl: self.ttl,
            rdata: copy_rdata(&self.rdata),
        }
    }
}

/// A record as the storage holds it.
pub struct StorageRecord {
    pub record: Record,
}

impl View for StorageRecord {
    type V = RecordView;

    open spec fn view(&self) -> RecordView {
        self.record@
    }
}

impl StorageRecord {
    /// Read access to the record.
    pub fn as_record(&self) -> (out: &Record)
        ensures
            out@ == self@,
    {
        &self.record
    }

    /// Write access to the record.
    pub fn as_mut_record(&mut self) -> (out: &mut Record)
        ensures
            *out == old(self).record,
            final(self).record == *final(out),
    {
        &mut self.record
    }
}

impl Clone for StorageRecord {
    fn clone(&self) -> (out: StorageRecord)
        ensures
            out@ == self@,
    {
        StorageRecord { record: self.record.clone() }
    }
}

/// The values of the records held in a vector, in their order.
pub open spec fn records_view(records: Vec<StorageRecord>) -> Seq<RecordView> {
    Seq::new(records.len() as nat, |i: int| records[i]@)
}

/// The values of the plain records held in a vector, in their order.
pub open spec fn plain_records_view(records: Vec<Record>) -> Seq<RecordView> {
    Seq::new(records.len() as nat, |i: int| records[i]@)
}

} // verus!
