use std::cell::RefCell;

use erma::agent::{
    decide, mk_err_response, mk_success_response, AgentService, Question, Rcode, Rejection,
    Response, CLASS_IN, REPORT_TTL, RTYPE_TXT,
};
use erma::name::{label_is_marker, DnsName};
use erma::report::{decode, parse_decimal_u16, ParseError};

fn name(labels: &[&str]) -> DnsName {
    DnsName::new(labels.iter().map(|l| l.as_bytes().to_vec()).collect())
}

/// An absolute name: the given labels and the empty root label.
fn abs_name(labels: &[&str]) -> DnsName {
    let mut v: Vec<Vec<u8>> = labels.iter().map(|l| l.as_bytes().to_vec()).collect();
    v.push(Vec::new());
    DnsName::new(v)
}

fn label_strings(n: &DnsName) -> Vec<String> {
    n.labels()
        .iter()
        .map(|l| String::from_utf8(l.clone()).unwrap())
        .collect()
}

fn txt_question(labels: &[&str]) -> Vec<Question> {
    vec![Question { qname: abs_name(labels), qtype: RTYPE_TXT }]
}

type Calls = RefCell<Vec<(u16, u16, Vec<String>)>>;

fn run(questions: &Vec<Question>) -> (Response, Vec<(u16, u16, Vec<String>)>) {
    let calls: Calls = RefCell::new(Vec::new());
    let svc = AgentService::new(|q: u16, c: u16, n: DnsName| {
        calls.borrow_mut().push((q, c, label_strings(&n)))
    });
    let r = svc.process_request(questions);
    drop(svc);
    (r, calls.into_inner())
}

fn assert_success(r: &Response, qname: &DnsName) {
    assert_eq!(r.rcode, Rcode::NoError);
    assert_eq!(r.answers.len(), 1);
    let rec = &r.answers[0];
    assert_eq!(rec.owner.labels(), qname.labels());
    assert_eq!(rec.class, 1);
    assert_eq!(rec.ttl, 86400);
    assert_eq!(rec.text, b"Report received".to_vec());
}

fn assert_formerr(r: &Response) {
    assert_eq!(r.rcode, Rcode::FormErr);
    assert!(r.answers.is_empty());
}

#[test]
fn scenario_example_com() {
    let labels = ["_er", "1", "example", "com", "23", "_er", "agent", "example"];
    let qs = txt_question(&labels);
    let (r, calls) = run(&qs);
    assert_success(&r, &abs_name(&labels));
    assert_eq!(calls, vec![(1, 23, vec!["example".to_string(), "com".to_string()])]);
}

#[test]
fn scenario_single_label_name() {
    let labels = ["_er", "1", "com", "23", "_er", "agent", "example"];
    let qs = txt_question(&labels);
    let (r, calls) = run(&qs);
    assert_success(&r, &abs_name(&labels));
    assert_eq!(calls, vec![(1, 23, vec!["com".to_string()])]);
}

#[test]
fn scenario_non_numeric_qtype() {
    let labels = ["_er", "xyz", "example", "com", "23", "_er", "agent", "example"];
    let qs = txt_question(&labels);
    let (r, calls) = run(&qs);
    assert_formerr(&r);
    assert!(calls.is_empty());
    assert!(matches!(decide(&qs), Err(Rejection::Malformed(ParseError::InvalidQtype))));
}

#[test]
fn scenario_four_labels() {
    let qs = vec![Question { qname: name(&["_er", "1", "com", "23"]), qtype: RTYPE_TXT }];
    let (r, calls) = run(&qs);
    assert_formerr(&r);
    assert!(calls.is_empty());
    assert!(matches!(decide(&qs), Err(Rejection::TooFewLabels)));
}

#[test]
fn five_labels_with_root_rejected_before_decoding() {
    // Decodable, but five labels with the root one.
    let qs = txt_question(&["_er", "1", "com", "23"]);
    assert!(matches!(decide(&qs), Err(Rejection::TooFewLabels)));
    let (r, calls) = run(&qs);
    assert_formerr(&r);
    assert!(calls.is_empty());
}

#[test]
fn wrong_query_type_rejected() {
    let labels = ["_er", "1", "example", "com", "23", "_er", "agent", "example"];
    let qs = vec![Question { qname: abs_name(&labels), qtype: 1 }];
    assert!(matches!(decide(&qs), Err(Rejection::QueryType)));
    let (r, calls) = run(&qs);
    assert_formerr(&r);
    assert!(calls.is_empty());
}

#[test]
fn question_count_rejected() {
    let labels = ["_er", "1", "example", "com", "23", "_er", "agent", "example"];
    let none: Vec<Question> = Vec::new();
    assert!(matches!(decide(&none), Err(Rejection::QuestionCount)));
    let (r, calls) = run(&none);
    assert_formerr(&r);
    assert!(calls.is_empty());
    let two = vec![
        Question { qname: abs_name(&labels), qtype: RTYPE_TXT },
        Question { qname: abs_name(&labels), qtype: RTYPE_TXT },
    ];
    assert!(matches!(decide(&two), Err(Rejection::QuestionCount)));
    let (r, calls) = run(&two);
    assert_formerr(&r);
    assert!(calls.is_empty());
}

#[test]
fn missing_terminator() {
    let qs = txt_question(&["_er", "1", "example", "com", "23", "agent", "example"]);
    assert!(matches!(decide(&qs), Err(Rejection::Malformed(ParseError::MissingTerminator))));
    let (r, calls) = run(&qs);
    assert_formerr(&r);
    assert!(calls.is_empty());
}

#[test]
fn missing_error_code() {
    let n = abs_name(&["_er", "1", "_er", "agent", "example", "net"]);
    assert!(matches!(decode(&n), Err(ParseError::MissingErrorCode)));
}

#[test]
fn missing_marker_and_qtype() {
    assert!(matches!(decode(&name(&[])), Err(ParseError::MissingMarker)));
    assert!(matches!(decode(&name(&["_er"])), Err(ParseError::MissingQtype)));
    assert!(matches!(decode(&name(&["_er", "1"])), Err(ParseError::MissingTerminator)));
}

#[test]
fn error_code_too_large() {
    let qs = txt_question(&["_er", "1", "example", "com", "65536", "_er", "agent", "example"]);
    assert!(matches!(decide(&qs), Err(Rejection::Malformed(ParseError::InvalidErrorCode))));
    let (r, calls) = run(&qs);
    assert_formerr(&r);
    assert!(calls.is_empty());
}

#[test]
fn error_code_non_numeric() {
    let n = abs_name(&["_er", "16", "example", "com", "x1", "_er", "agent"]);
    assert!(matches!(decode(&n), Err(ParseError::InvalidErrorCode)));
}

#[test]
fn qtype_too_large() {
    let n = abs_name(&["_er", "70000", "example", "com", "23", "_er", "agent"]);
    assert!(matches!(decode(&n), Err(ParseError::InvalidQtype)));
}

#[test]
fn largest_numbers_accepted() {
    let n = abs_name(&["_er", "65535", "example", "65535", "_er", "agent"]);
    let r = decode(&n).unwrap();
    assert_eq!(r.report_qtype, 65535);
    assert_eq!(r.edns_error_code, 65535);
    assert_eq!(label_strings(&r.original_qname), vec!["example".to_string()]);
}

#[test]
fn empty_reported_name_is_structurally_allowed() {
    let n = abs_name(&["_er", "1", "23", "_er", "agent", "example"]);
    let r = decode(&n).unwrap();
    assert_eq!(r.report_qtype, 1);
    assert_eq!(r.edns_error_code, 23);
    assert!(r.original_qname.labels().is_empty());
}

#[test]
fn first_label_not_checked() {
    let n = abs_name(&["xx", "28", "www", "example", "org", "7", "_er", "agent"]);
    let r = decode(&n).unwrap();
    assert_eq!(r.report_qtype, 28);
    assert_eq!(r.edns_error_code, 7);
    assert_eq!(
        label_strings(&r.original_qname),
        vec!["www".to_string(), "example".to_string(), "org".to_string()]
    );
}

#[test]
fn terminator_matched_without_case() {
    let n = abs_name(&["_er", "1", "example", "com", "23", "_ER", "agent"]);
    let r = decode(&n).unwrap();
    assert_eq!(r.edns_error_code, 23);
    assert_eq!(label_strings(&r.original_qname), vec!["example".to_string(), "com".to_string()]);
    assert!(label_is_marker(&b"_eR".to_vec()));
    assert!(!label_is_marker(&b"_e".to_vec()));
    assert!(!label_is_marker(&b"er_".to_vec()));
}

#[test]
fn first_marker_terminates() {
    // The report ends at the first marker after the query type label.
    let n = abs_name(&["_er", "1", "a", "5", "_er", "b", "6", "_er", "agent"]);
    let r = decode(&n).unwrap();
    assert_eq!(r.edns_error_code, 5);
    assert_eq!(label_strings(&r.original_qname), vec!["a".to_string()]);
}

#[test]
fn decode_twice_gives_same_result() {
    let n = abs_name(&["_er", "1", "example", "com", "23", "_er", "agent", "example"]);
    let a = decode(&n).unwrap();
    let b = decode(&n).unwrap();
    assert_eq!(a.report_qtype, b.report_qtype);
    assert_eq!(a.edns_error_code, b.edns_error_code);
    assert_eq!(a.original_qname.labels(), b.original_qname.labels());
    let bad = abs_name(&["_er", "xyz", "com", "23", "_er", "agent"]);
    assert_eq!(decode(&bad).err(), decode(&bad).err());
}

#[test]
fn decimal_labels() {
    assert_eq!(parse_decimal_u16(&b"0".to_vec()), Some(0));
    assert_eq!(parse_decimal_u16(&b"023".to_vec()), Some(23));
    assert_eq!(parse_decimal_u16(&b"+7".to_vec()), Some(7));
    assert_eq!(parse_decimal_u16(&b"65535".to_vec()), Some(65535));
    assert_eq!(parse_decimal_u16(&b"65536".to_vec()), None);
    assert_eq!(parse_decimal_u16(&b"".to_vec()), None);
    assert_eq!(parse_decimal_u16(&b"+".to_vec()), None);
    assert_eq!(parse_decimal_u16(&b"-1".to_vec()), None);
    assert_eq!(parse_decimal_u16(&b" 1".to_vec()), None);
    assert_eq!(parse_decimal_u16(&b"1a".to_vec()), None);
    assert_eq!(parse_decimal_u16(&b"99999999999".to_vec()), None);
}

#[test]
fn response_builders() {
    let q = abs_name(&["_er", "1", "com", "23", "_er", "agent"]);
    let ok = mk_success_response(&q);
    assert_success(&ok, &q);
    assert_eq!(ok.answers[0].class, CLASS_IN);
    assert_eq!(ok.answers[0].ttl, REPORT_TTL);
    let err = mk_err_response(Rcode::FormErr);
    assert_formerr(&err);
    assert_eq!(Rcode::NoError.to_int(), 0);
    assert_eq!(Rcode::FormErr.to_int(), 1);
}

#[test]
fn name_copy_keeps_labels() {
    let n = abs_name(&["a", "bc"]);
    let c = n.copy();
    assert_eq!(c.labels(), n.labels());
    assert_eq!(c.label_count(), 3);
}
