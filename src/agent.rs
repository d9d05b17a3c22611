//! The reporting agent: per request, the decision whether a query carries a
//! report, the hand-over of the report to a callback, and the answer.

use vstd::prelude::*;

use crate::name::DnsName;
use crate::name::is_marker;
use crate::report::{
    decimal_u16, decode, decode_spec, lemma_invalid_number_fails, lemma_missing_terminator,
    terminator_index, ParseError, Report,
};

verus! {

/// The record type TXT.
pub const RTYPE_TXT: u16 = 16;

/// The class IN.
pub const CLASS_IN: u16 = 1;

/// The time to live of the answer record: one day, in seconds.
pub const REPORT_TTL: u32 = 86400;

/// The response code of an answer.
#[derive(Clone, Copy, Debug, PartialEq, Eq, Structural)]
pub enum Rcode {
    NoError,
    FormErr,
}

impl Rcode {
    /// The code's value in a DNS header.
    pub fn to_int(self) -> (r: u8)
        ensures
            r == (if self == Rcode::NoError { 0u8 } else { 1u8 }),
    {
        match self {
            Rcode::NoError => 0,
            Rcode::FormErr => 1,
        }
    }
}

/// One question of a request: the name and the record type asked for.
pub struct Question {
    pub qname: DnsName,
    pub qtype: u16,
}

impl View for Question {
    type V = (Seq<Seq<u8>>, u16);

    open spec fn view(&self) -> (Seq<Seq<u8>>, u16) {
        (self.qname@, self.qtype)
    }
}

/// The questions of a request, as views.
pub open spec fn question_seq(v: Seq<Question>) -> Seq<(Seq<Seq<u8>>, u16)> {
    v.map_values(|q: Question| q@)
}

/// Why a request is answered with FORMERR.
#[derive(Clone, Copy, Debug, PartialEq, Eq, Structural)]
pub enum Rejection {
    /// The request does not hold exactly one question.
    QuestionCount,
    /// The question does not ask for TXT records.
    QueryType,
    /// The question's name has fewer than six labels.
    TooFewLabels,
    /// The question's name does not decode to a report.
    Malformed(ParseError),
}

/// What a request comes to: the report its sole question carries, or why
/// it is rejected. The name is decoded only for a sole TXT question of at
/// least six labels.
pub open spec fn decision(questions: Seq<(Seq<Seq<u8>>, u16)>) -> Result<(u16, u16, Seq<Seq<u8>>), Rejection> {
    if questions.len() != 1 {
        Err(Rejection::QuestionCount)
    } else if questions[0].1 != RTYPE_TXT {
        Err(Rejection::QueryType)
    } else if questions[0].0.len() < 6 {
        Err(Rejection::TooFewLabels)
    } else {
        match decode_spec(questions[0].0) {
            Err(e) => Err(Rejection::Malformed(e)),
            Ok(rep) => Ok(rep),
        }
    }
}

/// The view of a decision.
pub open spec fn decision_view(r: Result<Report, Rejection>) -> Result<(u16, u16, Seq<Seq<u8>>), Rejection> {
    match r {
        Ok(rep) => Ok(rep@),
        Err(e) => Err(e),
    }
}

/// Decides whether a request's questions carry a report.
pub fn decide(questions: &Vec<Question>) -> (r: Result<Report, Rejection>)
    ensures
        decision_view(r) == decision(question_seq(questions@)),
{
    if questions.len() != 1 {
        return Err(Rejection::QuestionCount);
    }
    let question = &questions[0];
    assert(question_seq(questions@)[0] == question@);
    if question.qtype != RTYPE_TXT {
        return Err(Rejection::QueryType);
    }
    if question.qname.label_count() < 6 {
        return Err(Rejection::TooFewLabels);
    }
    match decode(&question.qname) {
        Err(e) => Err(Rejection::Malformed(e)),
        Ok(rep) => Ok(rep),
    }
}

/// A TXT record of the answer section.
pub struct TxtRecord {
    pub owner: DnsName,
    pub class: u16,
    pub ttl: u32,
    /// The record's one character string.
    pub text: Vec<u8>,
}

impl View for TxtRecord {
    type V = (Seq<Seq<u8>>, u16, u32, Seq<u8>);

    open spec fn view(&self) -> (Seq<Seq<u8>>, u16, u32, Seq<u8>) {
        (self.owner@, self.class, self.ttl, self.text@)
    }
}

/// The records of an answer section, as views.
pub open spec fn record_seq(v: Seq<TxtRecord>) -> Seq<(Seq<Seq<u8>>, u16, u32, Seq<u8>)> {
    v.map_values(|t: TxtRecord| t@)
}

/// What the agent answers: a response code and the answer records.
pub struct Response {
    pub rcode: Rcode,
    pub answers: Vec<TxtRecord>,
}

impl View for Response {
    type V = (Rcode, Seq<(Seq<Seq<u8>>, u16, u32, Seq<u8>)>);

    open spec fn view(&self) -> (Rcode, Seq<(Seq<Seq<u8>>, u16, u32, Seq<u8>)>) {
        (self.rcode, record_seq(self.answers@))
    }
}

/// The text of the answer record: `Report received`.
pub open spec fn report_text() -> Seq<u8> {
    seq![82u8, 101, 112, 111, 114, 116, 32, 114, 101, 99, 101, 105, 118, 101, 100]
}

/// The answer to a report: NOERROR and one TXT record at the queried name,
/// class IN, a day's time to live, holding `Report received`.
pub open spec fn success_response(qname: Seq<Seq<u8>>) -> (Rcode, Seq<(Seq<Seq<u8>>, u16, u32, Seq<u8>)>) {
    (Rcode::NoError, seq![(qname, CLASS_IN, REPORT_TTL, report_text())])
}

/// An answer with the given code and no records.
pub open spec fn error_response(rcode: Rcode) -> (Rcode, Seq<(Seq<Seq<u8>>, u16, u32, Seq<u8>)>) {
    (rcode, Seq::empty())
}

/// The answer to a request: a report is acknowledged, anything else gets
/// FORMERR.
pub open spec fn response_spec(questions: Seq<(Seq<Seq<u8>>, u16)>) -> (Rcode, Seq<(Seq<Seq<u8>>, u16, u32, Seq<u8>)>) {
    match decision(questions) {
        Ok(_) => success_response(questions[0].0),
        Err(_) => error_response(Rcode::FormErr),
    }
}

/// A sole question whose name has fewer than six labels is answered with
/// FORMERR, and its name is never decoded: the rejection is for its type or
/// its label count, not for a malformed report.
pub proof fn lemma_few_labels_formerr(questions: Seq<(Seq<Seq<u8>>, u16)>)
    requires
        questions.len() == 1,
        questions[0].0.len() < 6,
    ensures
        decision(questions) == Err::<(u16, u16, Seq<Seq<u8>>), Rejection>(Rejection::QueryType)
            || decision(questions) == Err::<(u16, u16, Seq<Seq<u8>>), Rejection>(
            Rejection::TooFewLabels,
        ),
        response_spec(questions) == error_response(Rcode::FormErr),
{
}

/// A question for another type than TXT is answered with FORMERR and yields
/// no report.
pub proof fn lemma_wrong_type_formerr(questions: Seq<(Seq<Seq<u8>>, u16)>)
    requires
        questions.len() == 1,
        questions[0].1 != RTYPE_TXT,
    ensures
        decision(questions) == Err::<(u16, u16, Seq<Seq<u8>>), Rejection>(Rejection::QueryType),
        response_spec(questions) == error_response(Rcode::FormErr),
{
}

/// A question whose name lacks the terminating marker is answered with
/// FORMERR; where its name is decoded, the decoding fails for want of the
/// marker.
pub proof fn lemma_no_terminator_formerr(questions: Seq<(Seq<Seq<u8>>, u16)>)
    requires
        questions.len() == 1,
        questions[0].0.len() >= 2,
        forall|i: int| 2 <= i < questions[0].0.len() ==> !is_marker(#[trigger] questions[0].0[i]),
    ensures
        decision(questions) is Err,
        questions[0].1 == RTYPE_TXT && questions[0].0.len() >= 6 ==> decision(questions)
            == Err::<(u16, u16, Seq<Seq<u8>>), Rejection>(
            Rejection::Malformed(ParseError::MissingTerminator),
        ),
        response_spec(questions) == error_response(Rcode::FormErr),
{
    lemma_missing_terminator(questions[0].0);
}

/// A question whose query type label, or whose error code label, spells no
/// number below 65536 is answered with FORMERR.
pub proof fn lemma_invalid_number_formerr(questions: Seq<(Seq<Seq<u8>>, u16)>)
    requires
        questions.len() == 1,
        questions[0].0.len() >= 2,
        decimal_u16(questions[0].0[1]) is None || (3 <= terminator_index(questions[0].0)
            < questions[0].0.len() && decimal_u16(
            questions[0].0[terminator_index(questions[0].0) - 1],
        ) is None),
    ensures
        decision(questions) is Err,
        response_spec(questions) == error_response(Rcode::FormErr),
{
    lemma_invalid_number_fails(questions[0].0);
}

/// Builds the answer that acknowledges a report asked for under `qname`.
pub fn mk_success_response(qname: &DnsName) -> (r: Response)
    ensures
        r@ == success_response(qname@),
{
    let text: Vec<u8> = vec![82u8, 101, 112, 111, 114, 116, 32, 114, 101, 99, 101, 105, 118, 101, 100];
    assert(text@ =~= report_text());
    let record = TxtRecord { owner: qname.copy(), class: CLASS_IN, ttl: REPORT_TTL, text };
    let mut answers: Vec<TxtRecord> = Vec::new();
    answers.push(record);
    let r = Response { rcode: Rcode::NoError, answers };
    assert(record_seq(r.answers@) =~= seq![(qname@, CLASS_IN, REPORT_TTL, report_text())]);
    r
}

/// Builds an answer with the code `rcode` and no records.
pub fn mk_err_response(rcode: Rcode) -> (r: Response)
    ensures
        r@ == error_response(rcode),
{
    let r = Response { rcode, answers: Vec::new() };
    assert(record_seq(r.answers@) =~= Seq::empty());
    r
}

/// An error reporting agent: it hands each report it receives to a callback,
/// with the reported query type, the extended DNS error code and the failed
/// query's name, and answers the request.
pub struct AgentService<F: Fn(u16, u16, DnsName)> {
    callback: F,
}

impl<F: Fn(u16, u16, DnsName)> AgentService<F> {
    /// The callback that receives the reports.
    pub closed spec fn sink(&self) -> F {
        self.callback
    }

    /// An agent that hands its reports to `callback`.
    pub fn new(callback: F) -> (r: Self)
        ensures
            r.sink() == callback,
    {
        AgentService { callback }
    }

    /// Answers one request, given its questions. Where the sole question
    /// carries a report, the report goes to the callback before the answer
    /// is built.
    pub fn process_request(&self, questions: &Vec<Question>) -> (r: Response)
        requires
            forall|qtype: u16, code: u16, qname: DnsName|
                call_requires(self.sink(), (qtype, code, qname)),
        ensures
            r@ == response_spec(question_seq(questions@)),
            match decision(question_seq(questions@)) {
                Ok(rep) => exists|qname: DnsName|
                    qname@ == rep.2 && call_ensures(self.sink(), (rep.0, rep.1, qname), ()),
                Err(_) => true,
            },
    {
        match decide(questions) {
            Err(_) => mk_err_response(Rcode::FormErr),
            Ok(rep) => {
                let ghost name = rep.original_qname;
                assert(call_requires(self.sink(), (rep.report_qtype, rep.edns_error_code, name)));
                (self.callback)(rep.report_qtype, rep.edns_error_code, rep.original_qname);
                assert(question_seq(questions@)[0] == questions@[0]@);
                mk_success_response(&questions[0].qname)
            },
        }
    }
}

} // verus!
