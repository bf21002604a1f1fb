//! The upload pipeline: the pings that await delivery, and what becomes of a
//! ping once the uploader has reported on it.
//!
//! A delivered ping leaves the store. A ping whose upload failed for good
//! leaves it too. A ping whose upload may succeed later goes to the end of the
//! store and is tried again, until it has been tried [`MAX_UPLOAD_ATTEMPTS`]
//! times; then it is dropped.

use vstd::prelude::*;
use crate::encoding::{encode_payload, spec_payload_bytes};
use crate::metrics::{clone_opt_string, opt_string_view, MetricId, MetricStore, MetricValue};
use crate::net::UploadResult;

verus! {

/// The number of times that the upload of one ping is tried.
pub const MAX_UPLOAD_ATTEMPTS: u32 = 3;

/// What kind of answer an upload result is.
#[derive(Clone, Copy, Debug, PartialEq, Eq, Structural)]
pub enum ResponseKind {
    /// The ping was delivered.
    Success,
    /// A later attempt may succeed.
    Recoverable,
    /// No later attempt can succeed.
    Unrecoverable,
}

/// What became of a ping when the uploader's answer was processed.
#[derive(Clone, Copy, Debug, PartialEq, Eq, Structural)]
pub enum UploadOutcome {
    /// The ping was delivered and has left the store.
    Delivered,
    /// The ping stays in the store for a later attempt.
    Retry,
    /// The ping was dropped because its last permitted attempt failed.
    DroppedAfterRetries,
    /// The ping was dropped because its upload failed for good.
    DroppedUnrecoverable,
    /// The store holds no ping of that identifier; nothing changed.
    UnknownPing,
}

/// The kind of an upload result: a status from 200 to 299 is a success; a
/// status from 400 to 499 other than 429 fails for good; any other status may
/// be cured by a later attempt.
pub open spec fn spec_response_kind(result: UploadResult) -> ResponseKind {
    match result {
        UploadResult::HttpStatus(code) => if 200 <= code <= 299 {
            ResponseKind::Success
        } else if 400 <= code <= 499 && code != 429 {
            ResponseKind::Unrecoverable
        } else {
            ResponseKind::Recoverable
        },
        UploadResult::RecoverableFailure => ResponseKind::Recoverable,
        UploadResult::UnrecoverableFailure => ResponseKind::Unrecoverable,
    }
}

/// Decides the kind of an upload result.
pub fn response_kind(result: UploadResult) -> (kind: ResponseKind)
    ensures
        kind == spec_response_kind(result),
{
    match result {
        UploadResult::HttpStatus(code) => {
            if 200 <= code && code <= 299 {
                ResponseKind::Success
            } else if 400 <= code && code <= 499 && code != 429 {
                ResponseKind::Unrecoverable
            } else {
                ResponseKind::Recoverable
            }
        },
        UploadResult::RecoverableFailure => ResponseKind::Recoverable,
        UploadResult::UnrecoverableFailure => ResponseKind::Unrecoverable,
    }
}

/// The mathematical content of a ping that awaits delivery.
pub struct QueuedPingView {
    pub document_id: nat,
    pub name: Seq<char>,
    pub path: Seq<char>,
    pub reason: Option<Seq<char>>,
    pub payload: Map<MetricId, MetricValue>,
    pub attempts: nat,
}

/// An assembled ping that awaits delivery.
#[derive(Debug)]
pub struct QueuedPing {
    /// The identifier under which the ping was assembled.
    pub document_id: u64,
    /// The name of the ping.
    pub name: String,
    /// The path that the ping is submitted to.
    pub path: String,
    /// Why the ping was submitted.
    pub reason: Option<String>,
    /// The values that the ping carries.
    pub payload: MetricStore,
    /// The number of uploads of the ping that have failed so far.
    pub attempts: u32,
}

impl View for QueuedPing {
    type V = QueuedPingView;

    open spec fn view(&self) -> QueuedPingView {
        QueuedPingView {
            document_id: self.document_id as nat,
            name: self.name@,
            path: self.path@,
            reason: opt_string_view(self.reason),
            payload: self.payload@,
            attempts: self.attempts as nat,
        }
    }
}

impl QueuedPing {
    /// Copies the ping.
    pub fn duplicate(&self) -> (r: QueuedPing)
        ensures
            r@ == self@,
    {
        QueuedPing {
            document_id: self.document_id,
            name: self.name.clone(),
            path: self.path.clone(),
            reason: clone_opt_string(&self.reason),
            payload: self.payload.duplicate(),
            attempts: self.attempts,
        }
    }
}

/// What an uploader is handed for one ping.
#[derive(Debug)]
pub struct PingRequest {
    /// The identifier of the ping, by which the answer is matched to it.
    pub document_id: u64,
    /// The destination: the server's address followed by the ping's path.
    pub url: String,
    /// The bytes of the ping's payload.
    pub body: Vec<u8>,
    /// The headers, in the order in which they are sent.
    pub headers: Vec<(String, String)>,
}

/// Whether `headers` are the headers that every request carries.
pub open spec fn is_default_headers(headers: Seq<(String, String)>) -> bool {
    &&& headers.len() == 2
    &&& headers[0].0@ == "Content-Type"@
    &&& headers[0].1@ == "text/plain; charset=utf-8"@
    &&& headers[1].0@ == "X-Client-Type"@
    &&& headers[1].1@ == "Glean"@
}

/// The headers that every request carries.
pub fn default_headers() -> (headers: Vec<(String, String)>)
    ensures
        is_default_headers(headers@),
{
    let mut headers: Vec<(String, String)> = Vec::new();
    headers.push(("Content-Type".to_owned(), "text/plain; charset=utf-8".to_owned()));
    headers.push(("X-Client-Type".to_owned(), "Glean".to_owned()));
    headers
}

/// The request that delivers `ping` to the server at `endpoint`.
pub fn build_request(ping: &QueuedPing, endpoint: &String) -> (request: PingRequest)
    ensures
        request.document_id == ping.document_id,
        request.url@ == endpoint@ + ping.path@,
        request.body@ == spec_payload_bytes(ping.payload.spec_records()),
        is_default_headers(request.headers@),
{
    let mut url = endpoint.clone();
    url.append(ping.path.as_str());
    let body = encode_payload(ping.payload.records());
    PingRequest { document_id: ping.document_id, url, body, headers: default_headers() }
}

/// Whether position `i` holds the first ping of `pending` with the
/// identifier `document_id`.
pub open spec fn is_first_match(pending: Seq<QueuedPingView>, document_id: nat, i: int) -> bool {
    &&& 0 <= i < pending.len()
    &&& pending[i].document_id == document_id
    &&& forall|j: int| 0 <= j < i ==> (#[trigger] pending[j]).document_id != document_id
}

/// The position of the first ping of `pending` with the identifier
/// `document_id`, if there is one.
pub open spec fn first_position(pending: Seq<QueuedPingView>, document_id: nat) -> Option<int> {
    if exists|i: int| is_first_match(pending, document_id, i) {
        Some(choose|i: int| is_first_match(pending, document_id, i))
    } else {
        None
    }
}

/// What becomes of a ping that has failed `attempts` times before, given the
/// kind of the uploader's answer.
pub open spec fn spec_outcome_for(attempts: nat, kind: ResponseKind) -> UploadOutcome {
    match kind {
        ResponseKind::Success => UploadOutcome::Delivered,
        ResponseKind::Unrecoverable => UploadOutcome::DroppedUnrecoverable,
        ResponseKind::Recoverable => if attempts + 1 >= MAX_UPLOAD_ATTEMPTS {
            UploadOutcome::DroppedAfterRetries
        } else {
            UploadOutcome::Retry
        },
    }
}

/// What becomes of the ping `document_id` when the uploader answers `result`.
pub open spec fn spec_outcome(
    pending: Seq<QueuedPingView>,
    document_id: nat,
    result: UploadResult,
) -> UploadOutcome {
    match first_position(pending, document_id) {
        Some(i) => spec_outcome_for(pending[i].attempts, spec_response_kind(result)),
        None => UploadOutcome::UnknownPing,
    }
}

/// The pings that await delivery after the uploader has answered `result`
/// for the ping `document_id`.
pub open spec fn spec_after_response(
    pending: Seq<QueuedPingView>,
    document_id: nat,
    result: UploadResult,
) -> Seq<QueuedPingView> {
    match first_position(pending, document_id) {
        Some(i) => if spec_outcome(pending, document_id, result) == UploadOutcome::Retry {
            pending.remove(i).push(
                QueuedPingView { attempts: pending[i].attempts + 1, ..pending[i] },
            )
        } else {
            pending.remove(i)
        },
        None => pending,
    }
}

/// There is at most one first match.
pub proof fn lemma_first_match_unique(
    pending: Seq<QueuedPingView>,
    document_id: nat,
    i: int,
    j: int,
)
    requires
        is_first_match(pending, document_id, i),
        is_first_match(pending, document_id, j),
    ensures
        i == j,
{
    if i < j {
        assert(pending[i].document_id != document_id);
    }
    if j < i {
        assert(pending[j].document_id != document_id);
    }
}

/// The views of a sequence of pings.
pub open spec fn views_of(pings: Seq<QueuedPing>) -> Seq<QueuedPingView> {
    pings.map_values(|p: QueuedPing| p@)
}

/// The pings that await delivery, the oldest first.
#[derive(Debug)]
pub struct PingStore {
    pending: Vec<QueuedPing>,
}

impl View for PingStore {
    type V = Seq<QueuedPingView>;

    closed spec fn view(&self) -> Seq<QueuedPingView> {
        views_of(self.pending@)
    }
}

impl PingStore {
    /// A store that holds no ping.
    pub fn new() -> (s: PingStore)
        ensures
            s@ == Seq::<QueuedPingView>::empty(),
    {
        let s = PingStore { pending: Vec::new() };
        assert(s@ =~= Seq::<QueuedPingView>::empty());
        s
    }

    /// A store that holds the given pings.
    pub fn from_pings(pings: Vec<QueuedPing>) -> (s: PingStore)
        ensures
            s@ == views_of(pings@),
    {
        PingStore { pending: pings }
    }

    /// The number of pings that await delivery.
    pub fn len(&self) -> (n: usize)
        ensures
            n == self@.len(),
    {
        self.pending.len()
    }

    /// The pings that await delivery, the oldest first.
    pub fn pings(&self) -> (r: &Vec<QueuedPing>)
        ensures
            views_of(r@) == self@,
    {
        &self.pending
    }

    /// The ping that is tried next, if there is one.
    pub fn front(&self) -> (r: Option<&QueuedPing>)
        ensures
            match r {
                Some(p) => self@.len() > 0 && p@ == self@[0],
                None => self@.len() == 0,
            },
    {
        if self.pending.len() > 0 {
            Some(&self.pending[0])
        } else {
            None
        }
    }

    /// Puts `ping` at the end of the store.
    pub fn enqueue(&mut self, ping: QueuedPing)
        ensures
            final(self)@ == old(self)@.push(ping@),
    {
        self.pending.push(ping);
        assert(self@ =~= old(self)@.push(ping@));
    }

    /// Drops every ping.
    pub fn clear(&mut self)
        ensures
            final(self)@ == Seq::<QueuedPingView>::empty(),
    {
        self.pending.clear();
        assert(self@ =~= Seq::<QueuedPingView>::empty());
    }

    /// The position of the first ping with the identifier `document_id`.
    fn find(&self, document_id: u64) -> (r: Option<usize>)
        ensures
            match r {
                Some(i) => is_first_match(self@, document_id as nat, i as int),
                None => first_position(self@, document_id as nat) is None,
            },
    {
        let mut i: usize = 0;
        while i < self.pending.len()
            invariant
                i <= self.pending@.len(),
                forall|j: int| 0 <= j < i ==> (#[trigger] self@[j]).document_id != document_id,
            decreases self.pending@.len() - i,
        {
            if self.pending[i].document_id == document_id {
                return Some(i);
            }
            i = i + 1;
        }
        assert forall|k: int| !is_first_match(self@, document_id as nat, k) by {
            if 0 <= k < self@.len() {
                assert(self@[k].document_id != document_id);
            }
        }
        None
    }

    /// Processes the uploader's answer `result` for the ping `document_id`,
    /// and reports what became of the ping.
    pub fn process_response(&mut self, document_id: u64, result: UploadResult) -> (outcome:
        UploadOutcome)
        ensures
            outcome == spec_outcome(old(self)@, document_id as nat, result),
            final(self)@ == spec_after_response(old(self)@, document_id as nat, result),
    {
        let found = self.find(document_id);
        match found {
            None => UploadOutcome::UnknownPing,
            Some(i) => {
                proof {
                    let c = choose|k: int| is_first_match(self@, document_id as nat, k);
                    lemma_first_match_unique(self@, document_id as nat, i as int, c);
                }
                let kind = response_kind(result);
                let ping = self.pending.remove(i);
                assert(self@ =~= old(self)@.remove(i as int));
                match kind {
                    ResponseKind::Success => UploadOutcome::Delivered,
                    ResponseKind::Unrecoverable => UploadOutcome::DroppedUnrecoverable,
                    ResponseKind::Recoverable => {
                        if ping.attempts >= MAX_UPLOAD_ATTEMPTS - 1 {
                            UploadOutcome::DroppedAfterRetries
                        } else {
                            let again = QueuedPing { attempts: ping.attempts + 1, ..ping };
                            self.pending.push(again);
                            assert(self@ =~= old(self)@.remove(i as int).push(again@));
                            UploadOutcome::Retry
                        }
                    },
                }
            },
        }
    }
}

} // verus!
