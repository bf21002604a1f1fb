//! The boundary to the network: what an uploader is handed and what it
//! reports.

use vstd::prelude::*;

verus! {

/// The outcome that an uploader reports for one submission.
#[derive(Clone, Copy, Debug, PartialEq, Eq, Structural)]
pub enum UploadResult {
    /// The server answered with this HTTP status.
    HttpStatus(u32),
    /// The submission failed in a way that a later attempt may cure.
    RecoverableFailure,
    /// The submission failed for good.
    UnrecoverableFailure,
}

/// A transport that delivers one ping to its destination.
pub trait PingUploader: Send + Sync {
    /// Submits `body` with `headers` to `url` and reports how it went.
    fn upload(&self, url: String, body: Vec<u8>, headers: Vec<(String, String)>) -> UploadResult;
}

} // verus!
