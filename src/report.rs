//! Decoding of the report carried in the query name of an error report.
//!
//! The name reads, left to right: a leading marker, the decimal query type
//! of the failed query, the labels of the failed query's name, the decimal
//! extended DNS error code, the marker `_er`, and the agent's own domain.

use vstd::prelude::*;

use crate::name::{copy_label, is_marker, label_is_marker, label_seq, DnsName};

verus! {

/// Why a query name does not hold a report.
#[derive(Clone, Copy, Debug, PartialEq, Eq, Structural)]
pub enum ParseError {
    /// The name has no labels at all.
    MissingMarker,
    /// The name ends after its first label.
    MissingQtype,
    /// No label after the query type label is the marker `_er`.
    MissingTerminator,
    /// The marker `_er` follows the query type label directly.
    MissingErrorCode,
    /// The query type label is not a decimal number below 65536.
    InvalidQtype,
    /// The error code label is not a decimal number below 65536.
    InvalidErrorCode,
}

/// A decoded report: the query type and name of the failed query, and the
/// extended DNS error code that the reporting resolver saw.
pub struct Report {
    pub report_qtype: u16,
    pub edns_error_code: u16,
    /// The failed query's name, relative: no root label.
    pub original_qname: DnsName,
}

impl View for Report {
    type V = (u16, u16, Seq<Seq<u8>>);

    open spec fn view(&self) -> (u16, u16, Seq<Seq<u8>>) {
        (self.report_qtype, self.edns_error_code, self.original_qname@)
    }
}

pub open spec fn is_digit(b: u8) -> bool {
    48 <= b <= 57
}

pub open spec fn all_digits(s: Seq<u8>) -> bool {
    forall|i: int| 0 <= i < s.len() ==> is_digit(#[trigger] s[i])
}

/// The number that a string of decimal digits denotes.
pub open spec fn decimal_value(s: Seq<u8>) -> nat
    decreases s.len(),
{
    if s.len() == 0 {
        0
    } else {
        decimal_value(s.drop_last()) * 10 + (s.last() - 48) as nat
    }
}

/// The label without a leading `+`, if it has one.
pub open spec fn unsigned_digits(l: Seq<u8>) -> Seq<u8> {
    if l.len() > 0 && l[0] == 43u8 {
        l.drop_first()
    } else {
        l
    }
}

/// The 16-bit number that a label spells in decimal: one or more ASCII
/// digits, optionally after a `+`, of value at most 65535.
pub open spec fn decimal_u16(l: Seq<u8>) -> Option<u16> {
    let d = unsigned_digits(l);
    if d.len() > 0 && all_digits(d) && decimal_value(d) <= 65535 {
        Some(decimal_value(d) as u16)
    } else {
        None
    }
}

/// The position of the first marker label at or after position `i`, or the
/// number of labels where there is none.
pub open spec fn marker_from(labels: Seq<Seq<u8>>, i: int) -> int
    decreases labels.len() - i,
{
    if i >= labels.len() {
        labels.len() as int
    } else if is_marker(labels[i]) {
        i
    } else {
        marker_from(labels, i + 1)
    }
}

/// The position of the marker that ends the failed query's name and error
/// code: the first marker after the query type label.
pub open spec fn terminator_index(labels: Seq<Seq<u8>>) -> int {
    marker_from(labels, 2)
}

/// What a query name decodes to: the report, as query type, error code and
/// the labels between the query type label and the error code label; or the
/// first reason, in the order checked, why it holds none. The first label is
/// not inspected.
pub open spec fn decode_spec(labels: Seq<Seq<u8>>) -> Result<(u16, u16, Seq<Seq<u8>>), ParseError> {
    if labels.len() < 1 {
        Err(ParseError::MissingMarker)
    } else if labels.len() < 2 {
        Err(ParseError::MissingQtype)
    } else {
        let t = terminator_index(labels);
        if t >= labels.len() {
            Err(ParseError::MissingTerminator)
        } else if t == 2 {
            Err(ParseError::MissingErrorCode)
        } else {
            match decimal_u16(labels[1]) {
                None => Err(ParseError::InvalidQtype),
                Some(qtype) => match decimal_u16(labels[t - 1]) {
                    None => Err(ParseError::InvalidErrorCode),
                    Some(code) => Ok((qtype, code, labels.subrange(2, t - 1))),
                },
            }
        }
    }
}

/// The view of a decoding result.
pub open spec fn result_view(r: Result<Report, ParseError>) -> Result<(u16, u16, Seq<Seq<u8>>), ParseError> {
    match r {
        Ok(rep) => Ok(rep@),
        Err(e) => Err(e),
    }
}

proof fn lemma_marker_skip(labels: Seq<Seq<u8>>, i: int, j: int)
    requires
        0 <= i <= j <= labels.len(),
        forall|k: int| i <= k < j ==> !is_marker(#[trigger] labels[k]),
    ensures
        marker_from(labels, i) == marker_from(labels, j),
    decreases j - i,
{
    if i < j {
        lemma_marker_skip(labels, i + 1, j);
    }
}

/// A label that spells a number is not the marker.
pub proof fn lemma_number_not_marker(l: Seq<u8>)
    requires
        decimal_u16(l) is Some,
    ensures
        !is_marker(l),
{
    if l.len() > 0 && l[0] != 43u8 {
        assert(is_digit(unsigned_digits(l)[0]));
    }
}

/// A name laid out as `<any label>.<qtype>.<l1>...<lk>.<code>._er.<agent domain>`,
/// with k at least one, decodes to the query type and error code that the
/// two numeric labels spell and to `l1` ... `lk` in their order, provided
/// none of `l1` ... `lk` is itself the marker.
pub proof fn lemma_well_formed_decodes(
    first: Seq<u8>,
    qtype_label: Seq<u8>,
    name: Seq<Seq<u8>>,
    code_label: Seq<u8>,
    marker: Seq<u8>,
    agent: Seq<Seq<u8>>,
    qtype: u16,
    code: u16,
)
    requires
        name.len() >= 1,
        forall|i: int| 0 <= i < name.len() ==> !is_marker(#[trigger] name[i]),
        decimal_u16(qtype_label) == Some(qtype),
        decimal_u16(code_label) == Some(code),
        is_marker(marker),
    ensures
        decode_spec(seq![first, qtype_label] + name + seq![code_label, marker] + agent) == Ok::<
            (u16, u16, Seq<Seq<u8>>),
            ParseError,
        >((qtype, code, name)),
{
    let labels = seq![first, qtype_label] + name + seq![code_label, marker] + agent;
    let t = name.len() as int + 3;
    lemma_number_not_marker(code_label);
    assert forall|k: int| 2 <= k < t - 1 implies !is_marker(#[trigger] labels[k]) by {
        assert(labels[k] == name[k - 2]);
    }
    assert(labels[t - 1] == code_label);
    lemma_marker_skip(labels, 2, t - 1);
    lemma_marker_skip(labels, t - 1, t);
    assert(labels[t] == marker);
    assert(terminator_index(labels) == t);
    assert(labels.subrange(2, t - 1) =~= name);
}

/// A name of two or more labels in which no label after the second is the
/// marker fails to decode for want of the terminating marker.
pub proof fn lemma_missing_terminator(labels: Seq<Seq<u8>>)
    requires
        labels.len() >= 2,
        forall|i: int| 2 <= i < labels.len() ==> !is_marker(#[trigger] labels[i]),
    ensures
        decode_spec(labels) == Err::<(u16, u16, Seq<Seq<u8>>), ParseError>(ParseError::MissingTerminator),
{
    lemma_marker_skip(labels, 2, labels.len() as int);
}

/// A name whose query type label, or whose error code label (the one before
/// the terminating marker), spells no number below 65536 does not decode.
pub proof fn lemma_invalid_number_fails(labels: Seq<Seq<u8>>)
    requires
        labels.len() >= 2,
        decimal_u16(labels[1]) is None || (3 <= terminator_index(labels) < labels.len()
            && decimal_u16(labels[terminator_index(labels) - 1]) is None),
    ensures
        decode_spec(labels) is Err,
{
}

/// A string of digits whose value exceeds 65535 spells no 16-bit number.
pub proof fn lemma_too_large_rejected(l: Seq<u8>)
    requires
        l.len() > 0,
        all_digits(l),
        decimal_value(l) > 65535,
    ensures
        decimal_u16(l) is None,
{
    if l[0] == 43u8 {
        assert(is_digit(l[0]));
    }
}

/// Decoding depends on the labels alone: two names with the same labels
/// decode alike, and so does one name decoded twice.
pub proof fn lemma_decode_deterministic(a: Seq<Seq<u8>>, b: Seq<Seq<u8>>)
    requires
        a == b,
    ensures
        decode_spec(a) == decode_spec(b),
{
}

proof fn lemma_prefix_value_le(s: Seq<u8>, i: int)
    requires
        0 <= i <= s.len(),
    ensures
        decimal_value(s.subrange(0, i)) <= decimal_value(s),
    decreases s.len(),
{
    if i == s.len() {
        assert(s.subrange(0, i) =~= s);
    } else {
        lemma_prefix_value_le(s.drop_last(), i);
        assert(s.drop_last().subrange(0, i) =~= s.subrange(0, i));
    }
}

/// The number that `label` spells in decimal, as `u16::from_str` reads it.
pub fn parse_decimal_u16(label: &Vec<u8>) -> (r: Option<u16>)
    ensures
        r == decimal_u16(label@),
{
    let ghost d = unsigned_digits(label@);
    let start: usize = if label.len() > 0 && label[0] == 43 {
        1
    } else {
        0
    };
    assert(d =~= label@.subrange(start as int, label@.len() as int));
    if start >= label.len() {
        return None;
    }
    let mut value: u32 = 0;
    let mut i: usize = start;
    while i < label.len()
        invariant
            start <= i <= label.len(),
            d == unsigned_digits(label@),
            d =~= label@.subrange(start as int, label@.len() as int),
            all_digits(d.subrange(0, i - start)),
            value as nat == decimal_value(d.subrange(0, i - start)),
            value <= 65535,
        decreases label.len() - i,
    {
        let b = label[i];
        assert(d[i - start] == b);
        if b < 48 || b > 57 {
            assert(!is_digit(d[i - start]));
            assert(!all_digits(d));
            return None;
        }
        proof {
            let p = d.subrange(0, i + 1 - start);
            assert(p.drop_last() =~= d.subrange(0, i - start));
            assert(p.last() == b);
        }
        value = value * 10 + (b - 48) as u32;
        i += 1;
        if value > 65535 {
            proof {
                lemma_prefix_value_le(d, i - start);
            }
            assert(forall|j: int| 0 <= j < d.len() && !is_digit(d[j]) ==> !all_digits(d));
            return None;
        }
    }
    assert(d.subrange(0, i - start) =~= d);
    Some(value as u16)
}

/// Decodes the report that a query name carries.
///
/// The labels up to the first `_er` after the query type label are read;
/// the labels after it, the agent's domain, are not inspected.
pub fn decode(qname: &DnsName) -> (r: Result<Report, ParseError>)
    ensures
        result_view(r) == decode_spec(qname@),
{
    let labels = &qname.labels;
    let n = labels.len();
    if n < 1 {
        return Err(ParseError::MissingMarker);
    }
    if n < 2 {
        return Err(ParseError::MissingQtype);
    }
    let mut t: usize = 2;
    while t < n && !label_is_marker(&labels[t])
        invariant
            2 <= t <= n,
            n == labels@.len(),
            labels == &qname.labels,
            marker_from(qname@, t as int) == terminator_index(qname@),
        decreases n - t,
    {
        assert(qname@[t as int] == labels@[t as int]@);
        t += 1;
    }
    if t >= n {
        return Err(ParseError::MissingTerminator);
    }
    assert(qname@[t as int] == labels@[t as int]@);
    if t == 2 {
        return Err(ParseError::MissingErrorCode);
    }
    let report_qtype = match parse_decimal_u16(&labels[1]) {
        None => return Err(ParseError::InvalidQtype),
        Some(q) => q,
    };
    let edns_error_code = match parse_decimal_u16(&labels[t - 1]) {
        None => return Err(ParseError::InvalidErrorCode),
        Some(c) => c,
    };
    let mut out: Vec<Vec<u8>> = Vec::new();
    let mut i: usize = 2;
    while i < t - 1
        invariant
            2 <= i <= t - 1,
            t < n,
            n == labels@.len(),
            labels == &qname.labels,
            label_seq(out@) =~= qname@.subrange(2, i as int),
        decreases t - 1 - i,
    {
        let l = copy_label(&labels[i]);
        assert(qname@[i as int] == labels@[i as int]@);
        let ghost prev = out@;
        out.push(l);
        assert(out@ == prev.push(l));
        assert(label_seq(out@) =~= label_seq(prev).push(l@));
        assert(qname@.subrange(2, i + 1) =~= qname@.subrange(2, i as int).push(qname@[i as int]));
        i += 1;
        proof {
            assert(label_seq(out@) =~= qname@.subrange(2, i as int));
        }
    }
    Ok(Report { report_qtype, edns_error_code, original_qname: DnsName { labels: out } })
}

} // verus!
