//! Attestation verification reports, and the choice of the one report that a
//! signing key stands for.

use vstd::prelude::*;

verus! {

/// An attestation verification report as the attestation service signed it:
/// the signature, the certificate chain and the body.
#[derive(Clone, Debug, PartialEq, Eq)]
pub struct VerificationReport {
    pub sig: Vec<u8>,
    pub chain: Vec<Vec<u8>>,
    pub http_body: String,
}

/// A report as a mathematical value.
pub struct ReportView {
    pub sig: Seq<u8>,
    pub chain: Seq<Seq<u8>>,
    pub http_body: Seq<char>,
}

/// A certificate chain as a mathematical value.
pub open spec fn chain_view(chain: Seq<Vec<u8>>) -> Seq<Seq<u8>> {
    Seq::new(chain.len(), |i: int| chain[i]@)
}

impl View for VerificationReport {
    type V = ReportView;

    open spec fn view(&self) -> ReportView {
        ReportView { sig: self.sig@, chain: chain_view(self.chain@), http_body: self.http_body@ }
    }
}

/// An optional report as a mathematical value.
pub open spec fn report_view(report: Option<VerificationReport>) -> Option<ReportView> {
    match report {
        Some(r) => Some(r@),
        None => None,
    }
}

/// Whether the two byte strings are equal.
pub fn same_bytes(a: &Vec<u8>, b: &Vec<u8>) -> (same: bool)
    ensures
        same == (a@ == b@),
{
    if a.len() != b.len() {
        return false;
    }
    let mut i: usize = 0;
    while i < a.len()
        invariant
            a@.len() == b@.len(),
            i <= a@.len(),
            forall|k: int| 0 <= k < i ==> a@[k] == b@[k],
        decreases a@.len() - i,
    {
        if a[i] != b[i] {
            return false;
        }
        i += 1;
    }
    assert(a@ =~= b@);
    true
}

/// A copy of the byte string.
pub fn copy_bytes(source: &Vec<u8>) -> (copy: Vec<u8>)
    ensures
        copy@ == source@,
{
    crate::entry::copy_of(source)
}

impl VerificationReport {
    /// Whether the two reports are equal in every part.
    pub fn same(&self, other: &VerificationReport) -> (same: bool)
        ensures
            same == (self@ == other@),
    {
        if !same_bytes(&self.sig, &other.sig) {
            return false;
        }
        if self.http_body != other.http_body {
            return false;
        }
        if self.chain.len() != other.chain.len() {
            assert(chain_view(self.chain@).len() != chain_view(other.chain@).len());
            return false;
        }
        let mut i: usize = 0;
        while i < self.chain.len()
            invariant
                self.chain@.len() == other.chain@.len(),
                i <= self.chain@.len(),
                forall|k: int| 0 <= k < i ==> self.chain@[k]@ == other.chain@[k]@,
            decreases self.chain@.len() - i,
        {
            if !same_bytes(&self.chain[i], &other.chain[i]) {
                assert(chain_view(self.chain@)[i as int] != chain_view(other.chain@)[i as int]);
                return false;
            }
            i += 1;
        }
        assert(chain_view(self.chain@) =~= chain_view(other.chain@));
        true
    }

    /// A copy of the report.
    pub fn duplicate(&self) -> (copy: VerificationReport)
        ensures
            copy@ == self@,
    {
        let mut chain: Vec<Vec<u8>> = Vec::new();
        let mut i: usize = 0;
        while i < self.chain.len()
            invariant
                i <= self.chain@.len(),
                chain@.len() == i,
                forall|k: int| 0 <= k < i ==> chain@[k]@ == self.chain@[k]@,
            decreases self.chain@.len() - i,
        {
            chain.push(copy_bytes(&self.chain[i]));
            i += 1;
        }
        assert(chain_view(chain@) =~= chain_view(self.chain@));
        VerificationReport { sig: copy_bytes(&self.sig), chain, http_body: self.http_body.clone() }
    }
}

/// Whether the two optional reports are equal: both absent, or both present
/// and equal in every part.
pub fn same_report(a: &Option<VerificationReport>, b: &Option<VerificationReport>) -> (same: bool)
    ensures
        same == (report_view(*a) == report_view(*b)),
{
    match (a, b) {
        (Some(x), Some(y)) => x.same(y),
        (None, None) => true,
        _ => false,
    }
}

/// A copy of the optional report.
pub fn copy_report(report: &Option<VerificationReport>) -> (copy: Option<VerificationReport>)
    ensures
        report_view(copy) == report_view(*report),
{
    match report {
        Some(r) => Some(r.duplicate()),
        None => None,
    }
}

/// The reports that one block source holds for a signing key: the address
/// of the source, and the reports in the order in which they were recorded.
/// A source that recorded the key without a report holds `None` in its
/// place.
#[derive(Clone, Debug, PartialEq, Eq)]
pub struct SourceReports {
    pub source: String,
    pub reports: Vec<Option<VerificationReport>>,
}

/// The reports of one source as a mathematical value.
pub struct SourceReportsView {
    pub source: Seq<char>,
    pub reports: Seq<Option<ReportView>>,
}

impl View for SourceReports {
    type V = SourceReportsView;

    open spec fn view(&self) -> SourceReportsView {
        SourceReportsView {
            source: self.source@,
            reports: Seq::new(self.reports@.len(), |i: int| report_view(self.reports@[i])),
        }
    }
}

/// What is on record for a signing key, source by source, as a mathematical
/// value.
pub open spec fn records_view(records: Seq<SourceReports>) -> Seq<SourceReportsView> {
    Seq::new(records.len(), |i: int| records[i]@)
}

/// The record does not tell which report the key stands for: more than one
/// source holds reports for it, or the one source that does is the one asked
/// about and holds more than one.
pub open spec fn is_ambiguous(records: Seq<SourceReportsView>, source: Seq<char>) -> bool {
    ||| records.len() > 1
    ||| (records.len() == 1 && records[0].source == source && records[0].reports.len() > 1)
}

/// The report that a signing key stands for at `source`: the one report
/// that the one source on record holds, where that source is `source`.
pub open spec fn fetched(records: Seq<SourceReportsView>, source: Seq<char>) -> Option<ReportView> {
    if records.len() == 1 && records[0].source == source && records[0].reports.len() == 1 {
        records[0].reports[0]
    } else {
        None
    }
}

/// Whether the record does not tell which report the key stands for.
pub fn has_multiple_avrs(records: &Vec<SourceReports>, tx_src_url: &String) -> (ambiguous: bool)
    ensures
        ambiguous == is_ambiguous(records_view(records@), tx_src_url@),
{
    if records.len() > 1 {
        true
    } else if records.len() == 1 {
        records[0].source == *tx_src_url && records[0].reports.len() > 1
    } else {
        false
    }
}

/// The report that a signing key stands for at the source `tx_src_url`,
/// given what is on record for the key.
pub fn fetch_avr(records: &Vec<SourceReports>, tx_src_url: &String) -> (avr: Option<
    VerificationReport,
>)
    requires
        !is_ambiguous(records_view(records@), tx_src_url@),
    ensures
        report_view(avr) == fetched(records_view(records@), tx_src_url@),
{
    if records.len() == 1 && records[0].source == *tx_src_url && records[0].reports.len() == 1 {
        copy_report(&records[0].reports[0])
    } else {
        None
    }
}

/// As `fetch_avr`, for any record: `Err` where the record is ambiguous.
pub fn try_fetch_avr(records: &Vec<SourceReports>, tx_src_url: &String) -> (avr: Result<
    Option<VerificationReport>,
    MultipleAvrs,
>)
    ensures
        match avr {
            Ok(report) => !is_ambiguous(records_view(records@), tx_src_url@) && report_view(report)
                == fetched(records_view(records@), tx_src_url@),
            Err(_) => is_ambiguous(records_view(records@), tx_src_url@),
        },
{
    if has_multiple_avrs(records, tx_src_url) {
        Err(MultipleAvrs)
    } else {
        Ok(fetch_avr(records, tx_src_url))
    }
}

/// More than one report is on record for one signing key.
#[derive(Clone, Copy, Debug, PartialEq, Eq)]
pub struct MultipleAvrs;

} // verus!
