//! mDNS queries: the questions to ask and how the answer should come.

use vstd::prelude::*;
use crate::mdns::packet::{MdnsPacket, MdnsQuestion, RecordType, RecordClass};

verus! {

/// How an answer is wanted.
#[derive(Debug, Clone, Copy, PartialEq, Eq, Structural)]
pub enum QueryType {
    /// Answer to the asker alone.
    Unicast,
    /// Answer to the group.
    Multicast,
}

/// A query being built: its questions and how answers are wanted.
pub struct MdnsQuery {
    query_type: QueryType,
    questions: Vec<MdnsQuestion>,
}

/// The question `add_question` adds: the Internet class, and a unicast
/// answer asked for exactly when the query is unicast.
pub open spec fn question_for(name: String, rtype: RecordType, query_type: QueryType) -> MdnsQuestion {
    MdnsQuestion { name, qtype: rtype, qclass: RecordClass::IN, unicast_response: query_type == QueryType::Unicast }
}

impl MdnsQuestion {
    /// A copy of the question.
    pub fn copy(&self) -> (r: MdnsQuestion)
        ensures
            r == *self,
    {
        MdnsQuestion {
            name: self.name.clone(),
            qtype: self.qtype,
            qclass: self.qclass,
            unicast_response: self.unicast_response,
        }
    }
}

impl MdnsQuery {
    /// How answers are wanted.
    pub closed spec fn kind(&self) -> QueryType {
        self.query_type
    }

    /// The questions, in the order added.
    pub closed spec fn asked(&self) -> Seq<MdnsQuestion> {
        self.questions@
    }

    /// A query without questions.
    pub fn new(query_type: QueryType) -> (r: MdnsQuery)
        ensures
            r.kind() == query_type,
            r.asked().len() == 0,
    {
        MdnsQuery { query_type, questions: Vec::new() }
    }

    /// Adds a question for `name` of type `rtype`, and hands the query itself
    /// back so that further questions can be chained.
    pub fn add_question(&mut self, name: String, rtype: RecordType) -> (r: &mut MdnsQuery)
        ensures
            r.kind() == old(self).kind(),
            r.asked() == old(self).asked().push(question_for(name, rtype, old(self).kind())),
            *final(self) == *final(r),
    {
        let unicast = match self.query_type {
            QueryType::Unicast => true,
            QueryType::Multicast => false,
        };
        self.questions.push(MdnsQuestion { name, qtype: rtype, qclass: RecordClass::IN, unicast_response: unicast });
        self
    }

    /// A multicast query with one question of this type.
    fn single(name: String, rtype: RecordType) -> (r: MdnsQuery)
        ensures
            r.kind() == QueryType::Multicast,
            r.asked() == seq![question_for(name, rtype, QueryType::Multicast)],
    {
        let mut q = MdnsQuery::new(QueryType::Multicast);
        q.add_question(name, rtype);
        assert(q.asked() =~= seq![question_for(name, rtype, QueryType::Multicast)]);
        q
    }

    /// Service discovery: a PTR question for the service type.
    pub fn query_ptr(service_type: String) -> (r: MdnsQuery)
        ensures
            r.kind() == QueryType::Multicast,
            r.asked() == seq![question_for(service_type, RecordType::PTR, QueryType::Multicast)],
    {
        Self::single(service_type, RecordType::PTR)
    }

    /// Service location: an SRV question.
    pub fn query_srv(service_name: String) -> (r: MdnsQuery)
        ensures
            r.kind() == QueryType::Multicast,
            r.asked() == seq![question_for(service_name, RecordType::SRV, QueryType::Multicast)],
    {
        Self::single(service_name, RecordType::SRV)
    }

    /// An IPv4 address: an A question.
    pub fn query_a(hostname: String) -> (r: MdnsQuery)
        ensures
            r.kind() == QueryType::Multicast,
            r.asked() == seq![question_for(hostname, RecordType::A, QueryType::Multicast)],
    {
        Self::single(hostname, RecordType::A)
    }

    /// An IPv6 address: an AAAA question.
    pub fn query_aaaa(hostname: String) -> (r: MdnsQuery)
        ensures
            r.kind() == QueryType::Multicast,
            r.asked() == seq![question_for(hostname, RecordType::AAAA, QueryType::Multicast)],
    {
        Self::single(hostname, RecordType::AAAA)
    }

    /// Text: a TXT question.
    pub fn query_txt(service_name: String) -> (r: MdnsQuery)
        ensures
            r.kind() == QueryType::Multicast,
            r.asked() == seq![question_for(service_name, RecordType::TXT, QueryType::Multicast)],
    {
        Self::single(service_name, RecordType::TXT)
    }

    /// The query as a message: a query carrying the questions.
    pub fn build_packet(&self) -> (r: MdnsPacket)
        ensures
            r.flags == 0,
            r.questions@ == self.asked(),
            r.answers@.len() == 0,
            r.authorities@.len() == 0,
            r.additionals@.len() == 0,
    {
        let mut packet = MdnsPacket::new();
        packet.set_query();
        assert(0u16 & 0x7fffu16 == 0u16) by (bit_vector);
        let mut qs: Vec<MdnsQuestion> = Vec::new();
        let mut i: usize = 0;
        while i < self.questions.len()
            invariant
                i <= self.questions@.len(),
                qs@ == self.questions@.take(i as int),
            decreases self.questions.len() - i,
        {
            qs.push(self.questions[i].copy());
            i = i + 1;
            assert(qs@ =~= self.questions@.take(i as int));
        }
        assert(self.questions@.take(i as int) =~= self.questions@);
        packet.questions = qs;
        packet
    }
}

/// Builds a query step by step.
pub struct QueryBuilder {
    query: MdnsQuery,
}

impl QueryBuilder {
    /// What the builder holds so far.
    pub closed spec fn query_kind(&self) -> QueryType {
        self.query.kind()
    }

    /// The questions so far.
    pub closed spec fn questions_so_far(&self) -> Seq<MdnsQuestion> {
        self.query.asked()
    }

    /// A multicast query without questions.
    pub fn new() -> (r: QueryBuilder)
        ensures
            r.query_kind() == QueryType::Multicast,
            r.questions_so_far().len() == 0,
    {
        QueryBuilder { query: MdnsQuery::new(QueryType::Multicast) }
    }

    /// Sets how answers are wanted; questions already added keep their flag.
    pub fn query_type(self, query_type: QueryType) -> (r: QueryBuilder)
        ensures
            r.query_kind() == query_type,
            r.questions_so_far() == self.questions_so_far(),
    {
        let mut b = self;
        b.query.query_type = query_type;
        b
    }

    fn with(self, name: String, rtype: RecordType) -> (r: QueryBuilder)
        ensures
            r.query_kind() == self.query_kind(),
            r.questions_so_far() == self.questions_so_far().push(question_for(name, rtype, self.query_kind())),
    {
        let mut b = self;
        b.query.add_question(name, rtype);
        b
    }

    /// Adds a PTR question.
    pub fn ptr(self, service_type: String) -> (r: QueryBuilder)
        ensures
            r.query_kind() == self.query_kind(),
            r.questions_so_far() == self.questions_so_far().push(question_for(service_type, RecordType::PTR, self.query_kind())),
    {
        self.with(service_type, RecordType::PTR)
    }

    /// Adds an SRV question.
    pub fn srv(self, service_name: String) -> (r: QueryBuilder)
        ensures
            r.query_kind() == self.query_kind(),
            r.questions_so_far() == self.questions_so_far().push(question_for(service_name, RecordType::SRV, self.query_kind())),
    {
        self.with(service_name, RecordType::SRV)
    }

    /// Adds an A question.
    pub fn a(self, hostname: String) -> (r: QueryBuilder)
        ensures
            r.query_kind() == self.query_kind(),
            r.questions_so_far() == self.questions_so_far().push(question_for(hostname, RecordType::A, self.query_kind())),
    {
        self.with(hostname, RecordType::A)
    }

    /// Adds an AAAA question.
    pub fn aaaa(self, hostname: String) -> (r: QueryBuilder)
        ensures
            r.query_kind() == self.query_kind(),
            r.questions_so_far() == self.questions_so_far().push(question_for(hostname, RecordType::AAAA, self.query_kind())),
    {
        self.with(hostname, RecordType::AAAA)
    }

    /// Adds a TXT question.
    pub fn txt(self, service_name: String) -> (r: QueryBuilder)
        ensures
            r.query_kind() == self.query_kind(),
            r.questions_so_far() == self.questions_so_far().push(question_for(service_name, RecordType::TXT, self.query_kind())),
    {
        self.with(service_name, RecordType::TXT)
    }

    /// The query.
    pub fn build(self) -> (r: MdnsQuery)
        ensures
            r.kind() == self.query_kind(),
            r.asked() == self.questions_so_far(),
    {
        self.query
    }
}

impl Default for QueryBuilder {
    fn default() -> (r: QueryBuilder)
        ensures
            r.query_kind() == QueryType::Multicast,
            r.questions_so_far().len() == 0,
    {
        QueryBuilder::new()
    }
}

} // verus!
