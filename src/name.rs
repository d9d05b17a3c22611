//! Domain names as ordered sequences of labels.

use vstd::prelude::*;

verus! {

/// A domain name as received on the wire: its labels from left to right,
/// each a byte string. An absolute name ends in the empty root label.
pub struct DnsName {
    pub labels: Vec<Vec<u8>>,
}

impl View for DnsName {
    type V = Seq<Seq<u8>>;

    open spec fn view(&self) -> Seq<Seq<u8>> {
        label_seq(self.labels@)
    }
}

/// The byte strings held by a sequence of label vectors.
pub open spec fn label_seq(v: Seq<Vec<u8>>) -> Seq<Seq<u8>> {
    v.map_values(|l: Vec<u8>| l@)
}

/// The byte with ASCII upper case letters mapped to lower case.
pub open spec fn ascii_lower(b: u8) -> u8 {
    if 65 <= b <= 90 {
        (b + 32) as u8
    } else {
        b
    }
}

/// Whether a label is the report marker `_er`, compared as DNS compares
/// labels: ASCII letters without regard to case.
pub open spec fn is_marker(l: Seq<u8>) -> bool {
    &&& l.len() == 3
    &&& ascii_lower(l[0]) == 95u8
    &&& ascii_lower(l[1]) == 101u8
    &&& ascii_lower(l[2]) == 114u8
}

fn lower_byte(b: u8) -> (r: u8)
    ensures
        r == ascii_lower(b),
{
    if 65 <= b && b <= 90 {
        b + 32
    } else {
        b
    }
}

/// Whether `label` is the report marker `_er`, ignoring ASCII case.
pub fn label_is_marker(label: &Vec<u8>) -> (r: bool)
    ensures
        r == is_marker(label@),
{
    label.len() == 3 && lower_byte(label[0]) == 95 && lower_byte(label[1]) == 101
        && lower_byte(label[2]) == 114
}

/// A copy of a label.
pub fn copy_label(label: &Vec<u8>) -> (r: Vec<u8>)
    ensures
        r@ == label@,
{
    let mut out: Vec<u8> = Vec::with_capacity(label.len());
    let mut i: usize = 0;
    while i < label.len()
        invariant
            i <= label.len(),
            out@ == label@.subrange(0, i as int),
        decreases label.len() - i,
    {
        out.push(label[i]);
        i += 1;
        proof {
            assert(out@ =~= label@.subrange(0, i as int));
        }
    }
    proof {
        assert(label@.subrange(0, label@.len() as int) =~= label@);
    }
    out
}

impl DnsName {
    /// A name made of the given labels.
    pub fn new(labels: Vec<Vec<u8>>) -> (r: DnsName)
        ensures
            r.labels@ == labels@,
    {
        DnsName { labels }
    }

    /// The number of labels, the root label included where there is one.
    pub fn label_count(&self) -> (r: usize)
        ensures
            r == self@.len(),
    {
        self.labels.len()
    }

    /// A copy of this name.
    pub fn copy(&self) -> (r: DnsName)
        ensures
            r@ == self@,
    {
        let mut out: Vec<Vec<u8>> = Vec::with_capacity(self.labels.len());
        let mut i: usize = 0;
        while i < self.labels.len()
            invariant
                i <= self.labels.len(),
                label_seq(out@) =~= self@.subrange(0, i as int),
            decreases self.labels.len() - i,
        {
            let l = copy_label(&self.labels[i]);
            let ghost prev = out@;
            out.push(l);
            assert(label_seq(out@) =~= label_seq(prev).push(l@));
            assert(self@.subrange(0, i + 1) =~= self@.subrange(0, i as int).push(self@[i as int]));
            i += 1;
        }
        assert(self@.subrange(0, self@.len() as int) =~= self@);
        DnsName { labels: out }
    }

    /// The labels as a vector of byte strings.
    pub fn labels(&self) -> (r: &Vec<Vec<u8>>)
        ensures
            r@ == self.labels@,
    {
        &self.labels
    }
}

} // verus!
