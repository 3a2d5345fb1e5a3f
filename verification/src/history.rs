//! Reconstruction of the history of attestation reports from the blocks of
//! one source: the ranges of blocks over which the report that the blocks'
//! signer stands for stayed the same.
//!
//! The scan runs block by block. The caller reads each block's signer and,
//! where the scan asks for it, what is on record for that signer; the scan
//! decides where a range ends.

use crate::report::{copy_report, fetch_avr, fetched, is_ambiguous, records_view, report_view,
    same_report, ReportView, SourceReports, SourceReportsView, VerificationReport};
use crate::source_url::ResponderId;
use vstd::prelude::*;

verus! {

/// Public key with which a consensus node signs its blocks.
#[derive(Clone, Copy, Debug, PartialEq, Eq)]
pub struct SignerKey(pub [u8; 32]);

/// Whether the two blocks have the same signer: both none, or both the same
/// key.
pub fn same_signer(a: &Option<SignerKey>, b: &Option<SignerKey>) -> (same: bool)
    ensures
        same == (*a == *b),
{
    match (a, b) {
        (Some(x), Some(y)) => crate::digest::first_difference(&x.0, &y.0) == 32,
        (None, None) => true,
        _ => false,
    }
}

/// A range of blocks of one source, with the report that held over it.
#[derive(Clone, Debug, PartialEq, Eq)]
pub struct ReportRange {
    pub first_block_index: u64,
    pub last_block_index: u64,
    pub avr: Option<VerificationReport>,
}

/// A range as a mathematical value.
pub struct RangeView {
    pub first_block_index: u64,
    pub last_block_index: u64,
    pub avr: Option<ReportView>,
}

impl View for ReportRange {
    type V = RangeView;

    open spec fn view(&self) -> RangeView {
        RangeView {
            first_block_index: self.first_block_index,
            last_block_index: self.last_block_index,
            avr: report_view(self.avr),
        }
    }
}

/// An optional range as a mathematical value.
pub open spec fn range_view(range: Option<ReportRange>) -> Option<RangeView> {
    match range {
        Some(r) => Some(r@),
        None => None,
    }
}

/// One line of the exported history: a node, a range of its blocks, and the
/// report that held over the range.
#[derive(Clone, Debug, PartialEq, Eq)]
pub struct AvrConfigRecord {
    pub responder_id: ResponderId,
    pub first_block_index: u64,
    pub last_block_index: u64,
    pub avr: Option<VerificationReport>,
}

impl AvrConfigRecord {
    /// The record for the given node, range and report.
    pub fn new(
        responder_id: &ResponderId,
        first_block_index: u64,
        last_block_index: u64,
        avr: Option<VerificationReport>,
    ) -> (record: AvrConfigRecord)
        ensures
            record.responder_id@ == responder_id@,
            record.first_block_index == first_block_index,
            record.last_block_index == last_block_index,
            record.avr == avr,
    {
        AvrConfigRecord {
            responder_id: ResponderId(responder_id.0.clone()),
            first_block_index,
            last_block_index,
            avr,
        }
    }
}

/// Where a scan stands, as a mathematical value: the index of the next
/// block, the range that is open, and the signer and the report of the block
/// before.
pub struct ScanView {
    pub next_index: u64,
    pub start_index: u64,
    pub end_index: u64,
    pub signer: Option<SignerKey>,
    pub avr: Option<ReportView>,
}

/// The start of a scan: the open range is block 0 alone, and there is no
/// signer and no report yet.
pub open spec fn scan_start() -> ScanView {
    ScanView { next_index: 0, start_index: 0, end_index: 0, signer: None, avr: None }
}

/// The scan has to be told what is on record for the signer of the next
/// block: there is a signer, and it is not the signer of the block before.
pub open spec fn asks_for_records(state: ScanView, signer: Option<SignerKey>) -> bool {
    signer is Some && signer != state.signer
}

/// The report that the signer of the next block stands for. No signer, no
/// report.
pub open spec fn report_of_signer(
    signer: Option<SignerKey>,
    records: Option<Seq<SourceReportsView>>,
    source: Seq<char>,
) -> Option<ReportView> {
    match (signer, records) {
        (Some(_), Some(on_record)) => fetched(on_record, source),
        _ => None,
    }
}

/// The next block goes into the open range: its signer is that of the block
/// before, or stands for the same report.
pub open spec fn extends_range(state: ScanView, signer: Option<SignerKey>, avr: Option<ReportView>) -> bool {
    signer == state.signer || avr == state.avr
}

/// The scan after the next block. A block that extends the open range moves
/// its end by one; any other block closes the range and opens one that is
/// this block alone, under the block's report.
pub open spec fn advanced(state: ScanView, signer: Option<SignerKey>, avr: Option<ReportView>) -> ScanView {
    if extends_range(state, signer, avr) {
        ScanView {
            next_index: (state.next_index + 1) as u64,
            start_index: state.start_index,
            end_index: (state.end_index + 1) as u64,
            signer,
            avr: state.avr,
        }
    } else {
        ScanView {
            next_index: (state.next_index + 1) as u64,
            start_index: state.next_index,
            end_index: state.next_index,
            signer,
            avr,
        }
    }
}

/// The range that the next block closes, if it closes one.
pub open spec fn closed_range(state: ScanView, signer: Option<SignerKey>, avr: Option<ReportView>) -> Option<
    RangeView,
> {
    if extends_range(state, signer, avr) {
        None
    } else {
        Some(
            RangeView {
                first_block_index: state.start_index,
                last_block_index: state.end_index,
                avr: state.avr,
            },
        )
    }
}

/// A scan over the blocks of one source, in the order of their indices.
pub struct ScanState {
    next_index: u64,
    start_index: u64,
    end_index: u64,
    signer: Option<SignerKey>,
    avr: Option<VerificationReport>,
}

impl View for ScanState {
    type V = ScanView;

    closed spec fn view(&self) -> ScanView {
        ScanView {
            next_index: self.next_index,
            start_index: self.start_index,
            end_index: self.end_index,
            signer: self.signer,
            avr: report_view(self.avr),
        }
    }
}

impl ScanState {
    /// The open range starts at or before its end, and ends at or before the
    /// next block.
    pub open spec fn wf(&self) -> bool {
        self@.start_index <= self@.end_index <= self@.next_index
    }

    /// A scan that has seen no block.
    pub fn new() -> (state: ScanState)
        ensures
            state.wf(),
            state@ == scan_start(),
    {
        ScanState { next_index: 0, start_index: 0, end_index: 0, signer: None, avr: None }
    }

    /// Index of the next block.
    pub fn next_index(&self) -> (index: u64)
        ensures
            index == self@.next_index,
    {
        self.next_index
    }

    /// The open range: the indices of its first and of its last block.
    pub fn open_range(&self) -> (range: (u64, u64))
        ensures
            range == (self@.start_index, self@.end_index),
    {
        (self.start_index, self.end_index)
    }

    /// Whether the scan has to be told what is on record for the signer of
    /// the next block.
    pub fn needs_records(&self, signer: &Option<SignerKey>) -> (needed: bool)
        ensures
            needed == asks_for_records(self@, *signer),
    {
        signer.is_some() && !same_signer(signer, &self.signer)
    }

    /// Takes the next block, signed by `signer`. Where the scan asks for
    /// them, `records` holds what is on record for that signer, and
    /// `tx_src_url` is the address of the source that is scanned. Returns
    /// the range that the block closes, if it closes one.
    pub fn advance(
        &mut self,
        signer: Option<SignerKey>,
        records: Option<&Vec<SourceReports>>,
        tx_src_url: &String,
    ) -> (range: Option<ReportRange>)
        requires
            old(self).wf(),
            old(self)@.next_index < u64::MAX,
            asks_for_records(old(self)@, signer) ==> (records matches Some(on_record)
                && !is_ambiguous(records_view(on_record@), tx_src_url@)),
        ensures
            final(self).wf(),
            final(self)@ == advanced(
                old(self)@,
                signer,
                report_of_signer(signer, given_view(records), tx_src_url@),
            ),
            range_view(range) == closed_range(
                old(self)@,
                signer,
                report_of_signer(signer, given_view(records), tx_src_url@),
            ),
    {
        if same_signer(&signer, &self.signer) {
            self.end_index += 1;
            self.next_index += 1;
            return None;
        }
        let avr_for_signer = match (&signer, records) {
            (Some(_), Some(on_record)) => fetch_avr(on_record, tx_src_url),
            _ => None,
        };
        if same_report(&avr_for_signer, &self.avr) {
            self.end_index += 1;
            self.next_index += 1;
            self.signer = signer;
            None
        } else {
            let range = ReportRange {
                first_block_index: self.start_index,
                last_block_index: self.end_index,
                avr: self.avr.take(),
            };
            self.avr = avr_for_signer;
            self.start_index = self.next_index;
            self.end_index = self.next_index;
            self.next_index += 1;
            self.signer = signer;
            Some(range)
        }
    }
}

/// What was handed to the scan as being on record, as a mathematical value.
pub open spec fn given_view(records: Option<&Vec<SourceReports>>) -> Option<Seq<SourceReportsView>> {
    match records {
        Some(on_record) => Some(records_view(on_record@)),
        None => None,
    }
}

} // verus!
