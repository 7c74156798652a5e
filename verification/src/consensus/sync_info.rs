//! What replicas tell one another of their progress.

use crate::consensus::safety_rules::timeout_view;
use crate::consensus::timeout::{TimeoutCertificate, TimeoutCertificateView};
use crate::consensus::vote::{QuorumCert, QuorumCertView};
use vstd::prelude::*;

verus! {

/// The progress of a replica: the highest certificate it knows, the
/// certificate with the highest commit it knows, and the highest timeout
/// certificate it knows. A replica that lags catches up from this without
/// going through the whole history.
#[derive(Debug)]
pub struct SyncInfo {
    pub highest_qc: QuorumCert,
    pub highest_commit_cert: QuorumCert,
    pub highest_timeout_cert: Option<TimeoutCertificate>,
}

/// The progress of a replica as contracts see it.
pub struct SyncInfoView {
    pub highest_qc: QuorumCertView,
    pub highest_commit_cert: QuorumCertView,
    pub highest_timeout_cert: Option<TimeoutCertificateView>,
}

impl View for SyncInfo {
    type V = SyncInfoView;

    open spec fn view(&self) -> SyncInfoView {
        SyncInfoView {
            highest_qc: self.highest_qc@,
            highest_commit_cert: self.highest_commit_cert@,
            highest_timeout_cert: timeout_view(self.highest_timeout_cert),
        }
    }
}

impl Clone for SyncInfo {
    fn clone(&self) -> (r: Self)
        ensures
            r@ == self@,
    {
        SyncInfo {
            highest_qc: self.highest_qc.clone(),
            highest_commit_cert: self.highest_commit_cert.clone(),
            highest_timeout_cert: match &self.highest_timeout_cert {
                Some(tc) => Some(tc.clone()),
                None => None,
            },
        }
    }
}

impl SyncInfo {
    /// The progress that the given certificates show.
    pub fn new(
        highest_qc: QuorumCert,
        highest_commit_cert: QuorumCert,
        highest_timeout_cert: Option<TimeoutCertificate>,
    ) -> (info: Self)
        ensures
            info.highest_qc == highest_qc,
            info.highest_commit_cert == highest_commit_cert,
            info.highest_timeout_cert == highest_timeout_cert,
    {
        SyncInfo { highest_qc, highest_commit_cert, highest_timeout_cert }
    }

    /// The round of the highest certificate.
    pub fn highest_round(&self) -> (round: u64)
        ensures
            round == self.highest_qc.data.block.round,
    {
        self.highest_qc.data.block.round
    }
}

} // verus!
