//! The parts of a DNS message that the query pipeline reads and writes.

use crate::name::lower_labels;
use crate::name::DomainName;
use crate::name::NameView;
use crate::record::DnsClass;
use crate::record::Record;
use crate::record::RecordType;
use crate::record::RecordView;
use vstd::prelude::*;

verus! {

/// Whether a message asks or answers.
#[derive(Debug, Clone, Copy, PartialEq, Eq, Hash, Structural)]
pub enum MessageType {
    Query,
    Response,
}

/// The kind of operation a message asks for.
#[derive(Debug, Clone, Copy, PartialEq, Eq, Hash, Structural)]
pub enum OpCode {
    Query,
    Status,
    Notify,
    Update,
}

/// The response code of a message.
#[derive(Debug, Clone, Copy, PartialEq, Eq, Hash, Structural)]
pub enum ResponseCode {
    NoError,
    FormErr,
    ServFail,
    NXDomain,
    NotImp,
    Refused,
    /// Any other code, by its number.
    Other(u16),
}

/// The header of a DNS message, without the section counts.
#[derive(Debug, Clone, Copy, PartialEq, Eq, Hash, Structural)]
pub struct Header {
    pub id: u16,
    pub message_type: MessageType,
    pub op_code: OpCode,
    pub authoritative: bool,
    pub truncation: bool,
    pub recursion_desired: bool,
    pub recursion_available: bool,
    pub authentic_data: bool,
    pub checking_disabled: bool,
    pub response_code: ResponseCode,
}

/// The version of the Internet Protocol a request came over.
#[derive(Debug, Clone, Copy, PartialEq, Eq, Hash, Structural)]
pub enum IpVersion {
    V4,
    V6,
}

/// The transport a request came over.
#[derive(Debug, Clone, Copy, PartialEq, Eq, Hash, Structural)]
pub enum Protocol {
    Udp,
    Tcp,
    Tls,
    Dtls,
    Https,
    Quic,
}

/// The header of an error reply to a request: identifier, operation and the
/// two flags a client sets are taken from the request, every other flag is
/// off, and the message is a response with the given code. It never claims
/// authority.
pub open spec fn error_header(request: Header, code: ResponseCode) -> Header {
    Header {
        id: request.id,
        message_type: MessageType::Response,
        op_code: request.op_code,
        authoritative: false,
        truncation: false,
        recursion_desired: request.recursion_desired,
        recursion_available: false,
        authentic_data: false,
        checking_disabled: request.checking_disabled,
        response_code: code,
    }
}

/// The header of an authoritative reply to a request: the request's header
/// as a response that claims authority and carries the given code.
pub open spec fn authoritative_header(request: Header, code: ResponseCode) -> Header {
    Header { message_type: MessageType::Response, authoritative: true, response_code: code, ..request }
}

impl Header {
    /// The header of a plain query with the given identifier.
    pub fn query(id: u16) -> (out: Header)
        ensures
            out == (Header {
                id,
                message_type: MessageType::Query,
                op_code: OpCode::Query,
                authoritative: false,
                truncation: false,
                recursion_desired: false,
                recursion_available: false,
                authentic_data: false,
                checking_disabled: false,
                response_code: ResponseCode::NoError,
            }),
    {
        Header {
            id,
            message_type: MessageType::Query,
            op_code: OpCode::Query,
            authoritative: false,
            truncation: false,
            recursion_desired: false,
            recursion_available: false,
            authentic_data: false,
            checking_disabled: false,
            response_code: ResponseCode::NoError,
        }
    }

    /// The header of an error reply to the request with this header.
    pub fn error_reply(&self, code: ResponseCode) -> (out: Header)
        ensures
            out == error_header(*self, code),
    {
        Header {
            id: self.id,
            message_type: MessageType::Response,
            op_code: self.op_code,
            authoritative: false,
            truncation: false,
            recursion_desired: self.recursion_desired,
            recursion_available: false,
            authentic_data: false,
            checking_disabled: self.checking_disabled,
            response_code: code,
        }
    }

    /// The header of an authoritative reply to the request with this header.
    pub fn authoritative_reply(&self, code: ResponseCode) -> (out: Header)
        ensures
            out == authoritative_header(*self, code),
    {
        Header {
            id: self.id,
            message_type: MessageType::Response,
            op_code: self.op_code,
            authoritative: true,
            truncation: self.truncation,
            recursion_desired: self.recursion_desired,
            recursion_available: self.recursion_available,
            authentic_data: self.authentic_data,
            checking_disabled: self.checking_disabled,
            response_code: code,
        }
    }
}

/// The mathematical value of a [`Query`].
pub struct QueryView {
    /// The name as the client wrote it.
    pub original: NameView,
    /// The name in lower case, by which everything is looked up.
    pub name: NameView,
    pub query_type: RecordType,
    pub query_class: DnsClass,
}

/// The question of a request. It keeps the name twice: as the client wrote
/// it, and in lower case.
pub struct Query {
    original: DomainName,
    name: DomainName,
    query_type: RecordType,
    query_class: DnsClass,
}

impl View for Query {
    type V = QueryView;

    closed spec fn view(&self) -> QueryView {
        QueryView {
            original: self.original@,
            name: self.name@,
            query_type: self.query_type,
            query_class: self.query_class,
        }
    }
}

/// What holds of the two names of every query: the second is the first in
/// lower case.
pub open spec fn query_wf(q: QueryView) -> bool {
    q.name == (NameView { labels: lower_labels(q.original.labels), fqdn: q.original.fqdn })
}

impl Query {
    #[verifier::type_invariant]
    closed spec fn inv(&self) -> bool {
        query_wf(self@)
    }

    /// The question for the given name, type and class. The name is kept as
    /// it is written and, beside it, in lower case.
    pub fn new(original: DomainName, query_type: RecordType, query_class: DnsClass) -> (out: Query)
        ensures
            out@.original == original@,
            out@.query_type == query_type,
            out@.query_class == query_class,
            query_wf(out@),
    {
        let name = original.to_lowercase();
        Query { original, name, query_type, query_class }
    }

    /// The name in lower case.
    pub fn name(&self) -> (out: &DomainName)
        ensures
            out@ == self@.name,
            query_wf(self@),
    {
        proof {
            use_type_invariant(self);
        }
        &self.name
    }

    /// The name as the client wrote it.
    pub fn original_name(&self) -> (out: &DomainName)
        ensures
            out@ == self@.original,
            query_wf(self@),
    {
        proof {
            use_type_invariant(self);
        }
        &self.original
    }

    /// The type asked for.
    pub fn query_type(&self) -> (out: RecordType)
        ensures
            out == self@.query_type,
    {
        self.query_type
    }

    /// The class asked for.
    pub fn query_class(&self) -> (out: DnsClass)
        ensures
            out == self@.query_class,
    {
        self.query_class
    }
}

/// The mathematical value of a [`Request`].
pub struct RequestView {
    pub header: Header,
    pub query: QueryView,
    pub edns: bool,
    pub ip_version: IpVersion,
    pub protocol: Protocol,
}

/// An inbound message, as far as the pipeline reads it.
pub struct Request {
    pub header: Header,
    pub query: Query,
    /// Whether the request carried an EDNS OPT record.
    pub edns: bool,
    pub ip_version: IpVersion,
    pub protocol: Protocol,
}

impl View for Request {
    type V = RequestView;

    open spec fn view(&self) -> RequestView {
        RequestView {
            header: self.header,
            query: self.query@,
            edns: self.edns,
            ip_version: self.ip_version,
            protocol: self.protocol,
        }
    }
}

/// The mathematical value of a [`Response`].
pub struct ResponseView {
    pub header: Header,
    pub answers: Seq<RecordView>,
    pub authority: Seq<RecordView>,
    pub edns: bool,
}

/// An outbound message: its header, its answer and authority sections, and
/// whether the request's EDNS OPT record is echoed. The additional section
/// is always empty.
pub struct Response {
    pub header: Header,
    pub answers: Vec<Record>,
    pub authority: Vec<Record>,
    pub edns: bool,
}

impl View for Response {
    type V = ResponseView;

    open spec fn view(&self) -> ResponseView {
        ResponseView {
            header: self.header,
            answers: Seq::new(self.answers.len() as nat, |i: int| self.answers[i]@),
            authority: Seq::new(self.authority.len() as nat, |i: int| self.authority[i]@),
            edns: self.edns,
        }
    }
}

/// The error reply to a request: the error header and empty sections, with
/// no EDNS record.
pub open spec fn error_response(request: Header, code: ResponseCode) -> ResponseView {
    ResponseView {
        header: error_header(request, code),
        answers: Seq::empty(),
        authority: Seq::empty(),
        edns: false,
    }
}

impl Response {
    /// The error reply to the request with the given header.
    pub fn error(request: &Header, code: ResponseCode) -> (out: Response)
        ensures
            out@ == error_response(*request, code),
    {
        let out = Response { header: request.error_reply(code), answers: Vec::new(), authority: Vec::new(), edns: false };
        assert(out@.answers =~= Seq::<RecordView>::empty());
        assert(out@.authority =~= Seq::<RecordView>::empty());
        out
    }
}

/// What is known of a message that was sent: its header.
#[derive(Debug, Clone, Copy, PartialEq, Eq, Structural)]
pub struct ResponseInfo {
    pub header: Header,
}

} // verus!
