//! Uploading the records of one host and tag, page by page.
//!
//! [`sync_upload`] decides what to do; whoever drives it reads the store and talks to the server. A
//! state says what is to be done next, the event what came of it.

use vstd::prelude::*;

use crate::packfile::record::PACKFILE_TAG;
use crate::packfile::upload::UploadError;
use crate::record::domain::{EncryptedData, HostId, Record, RecordId, RecordIdx};
use crate::record::error::SyncError;
use crate::text::same_text;

verus! {

/// An upload under way.
#[derive(Clone, Debug, PartialEq, Eq)]
pub struct UploadJob {
    pub host: HostId,
    pub tag: String,
    /// Where the remote store was when the upload began.
    pub remote: RecordIdx,
    /// How many records there are from there to the head of the local store, both ends included.
    pub expected: u64,
    /// How many records are read at once.
    pub page_size: u64,
    /// How many records have been uploaded.
    pub progress: u64,
}

/// What is to be done next for an upload.
#[derive(Debug)]
pub enum SyncUpload {
    /// Read up to `job.page_size` records of the job's host and tag from the local store, from
    /// `start` on.
    ReadPage { job: UploadJob, start: RecordIdx },
    /// Upload the bundles of the manifests in `page`.
    ShipBundles { job: UploadJob, page: Vec<Record<EncryptedData>> },
    /// Send the records of `page` to the server.
    PostRecords { job: UploadJob, page: Vec<Record<EncryptedData>> },
    /// Nothing: how many records were uploaded, or why it failed.
    Done(Result<i64, SyncError>),
}

/// What came of a step of an upload.
#[derive(Debug)]
pub enum SyncUploadEvent {
    /// A page was read.
    PageRead(Result<Vec<Record<EncryptedData>>, String>),
    /// The bundles were uploaded.
    BundlesShipped(Result<Vec<RecordId>, UploadError>),
    /// The records were sent.
    RecordsPosted(Result<(), String>),
}

impl UploadJob {
    /// The job goes up to an index, and is not yet there.
    pub open spec fn wf(self) -> bool {
        &&& self.remote + self.expected <= u64::MAX + 1
        &&& self.progress == 0 || self.progress < self.expected
    }
}

impl SyncUpload {
    pub open spec fn wf(self) -> bool {
        match self {
            SyncUpload::ReadPage { job, start } => job.wf() && start == job.remote + job.progress,
            SyncUpload::ShipBundles { job, page } => job.wf() && page@.len() > 0 && job.tag@
                == PACKFILE_TAG@,
            SyncUpload::PostRecords { job, page } => job.wf() && page@.len() > 0,
            SyncUpload::Done(_) => true,
        }
    }

    /// What an upload starts with. A remote store that has no records counts as one at its start.
    pub open spec fn is_begin(
        self,
        host: HostId,
        tag: String,
        local: RecordIdx,
        remote: Option<RecordIdx>,
        page_size: u64,
    ) -> bool {
        let from = head_or_start(remote);
        self == (SyncUpload::ReadPage {
            job: UploadJob {
                host,
                tag,
                remote: from,
                expected: span(from, local),
                page_size,
                progress: 0,
            },
            start: from,
        })
    }

    /// Starts the upload of the records of `host` and `tag` from `remote` to `local`.
    pub fn begin(
        host: HostId,
        tag: String,
        local: RecordIdx,
        remote: Option<RecordIdx>,
        page_size: u64,
    ) -> (state: SyncUpload)
        requires
            local >= head_or_start(remote),
        ensures
            state.is_begin(host, tag, local, remote, page_size),
            state.wf(),
    {
        let from: u64 = match remote {
            Some(idx) => idx,
            None => 0,
        };
        SyncUpload::ReadPage {
            job: UploadJob {
                host,
                tag,
                remote: from,
                expected: span_of(from, local),
                page_size,
                progress: 0,
            },
            start: from,
        }
    }
}

/// The head of a store, or where a store starts that has none.
pub open spec fn head_or_start(head: Option<RecordIdx>) -> RecordIdx {
    match head {
        Some(idx) => idx,
        None => 0,
    }
}

/// How many indices there are from `from` to `head`, both included, as far as that can be counted:
/// what is to be moved where a store at `from` is to get to `head`. A transfer starts with the record
/// at `from` itself, which a store that has none is short of too.
pub open spec fn span(from: RecordIdx, head: RecordIdx) -> u64 {
    if head < from {
        0
    } else if head - from == u64::MAX {
        u64::MAX
    } else {
        (head - from + 1) as u64
    }
}

/// How many indices there are from `from` to `head`.
pub fn span_of(from: RecordIdx, head: RecordIdx) -> (n: u64)
    ensures
        n == span(from, head),
{
    if head < from {
        0
    } else if head - from == u64::MAX {
        u64::MAX
    } else {
        head - from + 1
    }
}

/// How an upload goes on: what `after` is, where `event` came of what `before` asked for. An event
/// that was not asked for changes nothing.
pub open spec fn sync_upload_step(
    before: SyncUpload,
    event: SyncUploadEvent,
    after: SyncUpload,
) -> bool {
    match (before, event) {
        (SyncUpload::ReadPage { job, .. }, SyncUploadEvent::PageRead(Ok(page))) => if page@.len()
            == 0 {
            after == SyncUpload::Done(Ok(job.progress as i64))
        } else if job.tag@ == PACKFILE_TAG@ {
            after == (SyncUpload::ShipBundles { job, page })
        } else {
            after == (SyncUpload::PostRecords { job, page })
        },
        (SyncUpload::ReadPage { .. }, SyncUploadEvent::PageRead(Err(msg))) => after
            == SyncUpload::Done(Err(SyncError::LocalStoreError { msg })),
        (SyncUpload::ShipBundles { job, page }, SyncUploadEvent::BundlesShipped(Ok(_))) => after
            == (SyncUpload::PostRecords { job, page }),
        (SyncUpload::ShipBundles { .. }, SyncUploadEvent::BundlesShipped(Err(e))) => {
            &&& after matches SyncUpload::Done(Err(SyncError::RemoteRequestError { msg }))
            &&& msg@ == e.text()
        },
        (SyncUpload::PostRecords { job, page }, SyncUploadEvent::RecordsPosted(Ok(_))) => {
            let progress = (job.progress + page@.len()) as u64;
            if progress >= job.expected {
                after == SyncUpload::Done(Ok(progress as i64))
            } else {
                after == (SyncUpload::ReadPage {
                    job: UploadJob { progress, ..job },
                    start: (job.remote + progress) as u64,
                })
            }
        },
        (SyncUpload::PostRecords { .. }, SyncUploadEvent::RecordsPosted(Err(msg))) => after
            == SyncUpload::Done(Err(SyncError::RemoteRequestError { msg })),
        _ => after == before,
    }
}

/// Where a page was sent, the number of records uploaded can be counted.
pub open spec fn can_count_page(state: SyncUpload, event: SyncUploadEvent) -> bool {
    match (state, event) {
        (
            SyncUpload::PostRecords { job, page },
            SyncUploadEvent::RecordsPosted(Ok(_)),
        ) => job.progress + page@.len() <= u64::MAX,
        _ => true,
    }
}

/// Goes on with the upload of one host and tag.
///
/// A page of packfile manifests goes up only after the bundles of its manifests, so that a manifest
/// that reaches the server always has its bundle.
pub fn sync_upload(state: SyncUpload, event: SyncUploadEvent) -> (next: SyncUpload)
    requires
        state.wf(),
        can_count_page(state, event),
    ensures
        sync_upload_step(state, event, next),
        next.wf(),
{
    match (state, event) {
        (SyncUpload::ReadPage { job, .. }, SyncUploadEvent::PageRead(read)) => {
            match read {
                Ok(page) => if page.len() == 0 {
                    SyncUpload::Done(Ok(as_count(job.progress)))
                } else if same_text(job.tag.as_str(), PACKFILE_TAG) {
                    SyncUpload::ShipBundles { job, page }
                } else {
                    SyncUpload::PostRecords { job, page }
                },
                Err(msg) => SyncUpload::Done(Err(SyncError::LocalStoreError { msg })),
            }
        },
        (SyncUpload::ShipBundles { job, page }, SyncUploadEvent::BundlesShipped(shipped)) => {
            match shipped {
                Ok(_) => SyncUpload::PostRecords { job, page },
                Err(e) => SyncUpload::Done(
                    Err(SyncError::RemoteRequestError { msg: e.message() }),
                ),
            }
        },
        (SyncUpload::PostRecords { job, page }, SyncUploadEvent::RecordsPosted(posted)) => {
            match posted {
                Ok(_) => {
                    let progress: u64 = job.progress + page.len() as u64;
                    if progress >= job.expected {
                        SyncUpload::Done(Ok(as_count(progress)))
                    } else {
                        let start: u64 = job.remote + progress;
                        SyncUpload::ReadPage { job: UploadJob { progress, ..job }, start }
                    }
                },
                Err(msg) => SyncUpload::Done(Err(SyncError::RemoteRequestError { msg })),
            }
        },
        (state, _) => state,
    }
}

/// A number of records as a signed count.
fn as_count(n: u64) -> (count: i64)
    ensures
        count == n as i64,
{
    #[verifier::truncate]
    (n as i64)
}

/// The states that an upload goes through, and the events between them.
pub open spec fn is_sync_upload_run(
    states: Seq<SyncUpload>,
    events: Seq<SyncUploadEvent>,
) -> bool {
    &&& states.len() == events.len() + 1
    &&& forall|i: int|
        #![trigger events[i]]
        0 <= i < events.len() ==> can_count_page(states[i], events[i]) && sync_upload_step(
            states[i],
            events[i],
            states[i + 1],
        )
}

/// How many records the server took before place `n`.
pub open spec fn posted(states: Seq<SyncUpload>, events: Seq<SyncUploadEvent>, n: int) -> nat
    decreases n,
{
    if n <= 0 {
        0
    } else {
        posted(states, events, n - 1) + match (states[n - 1], events[n - 1]) {
            (SyncUpload::PostRecords { page, .. }, SyncUploadEvent::RecordsPosted(Ok(_))) => {
                page@.len()
            },
            _ => 0,
        }
    }
}

/// The job of a state, where it has one.
pub open spec fn job_of(state: SyncUpload) -> Option<UploadJob> {
    match state {
        SyncUpload::ReadPage { job, .. } => Some(job),
        SyncUpload::ShipBundles { job, .. } => Some(job),
        SyncUpload::PostRecords { job, .. } => Some(job),
        SyncUpload::Done(_) => None,
    }
}

/// An upload reads on exactly as many records past its start as the server has taken. It succeeds with
/// that number, and only when it is all from its start to the head of the local store or the store
/// had no more.
pub proof fn law_upload_counts(
    states: Seq<SyncUpload>,
    events: Seq<SyncUploadEvent>,
    host: HostId,
    tag: String,
    local: RecordIdx,
    remote: Option<RecordIdx>,
    page_size: u64,
    n: int,
)
    requires
        local >= head_or_start(remote),
        is_sync_upload_run(states, events),
        states[0].is_begin(host, tag, local, remote, page_size),
        0 <= n < states.len(),
    ensures
        states[n].wf(),
        job_of(states[n]) matches Some(job) ==> {
            &&& job.host == host && job.tag == tag && job.page_size == page_size
            &&& job.remote == head_or_start(remote)
            &&& job.expected == span(head_or_start(remote), local)
            &&& job.progress == posted(states, events, n)
        },
        states[n] matches SyncUpload::ReadPage { start, .. } ==> start == head_or_start(remote)
            + posted(states, events, n),
        states[n] matches SyncUpload::Done(Ok(count)) ==> {
            &&& count == posted(states, events, n) as i64
            &&& posted(states, events, n) >= span(head_or_start(remote), local) || exists|i: int|
                0 <= i < n && is_empty_page_at(states, events, i)
        },
    decreases n,
{
    if n > 0 {
        let event = events[n - 1];
        law_upload_counts(states, events, host, tag, local, remote, page_size, n - 1);
        if states[n - 1] is ReadPage && states[n] is Done {
            if events[n - 1] matches SyncUploadEvent::PageRead(Ok(_)) {
                assert(is_empty_page_at(states, events, n - 1));
            }
        }
    }
}

/// How many pages the server took before place `n`.
pub open spec fn pages(states: Seq<SyncUpload>, events: Seq<SyncUploadEvent>, n: int) -> nat
    decreases n,
{
    if n <= 0 {
        0
    } else {
        pages(states, events, n - 1) + match (states[n - 1], events[n - 1]) {
            (SyncUpload::PostRecords { .. }, SyncUploadEvent::RecordsPosted(Ok(_))) => 1nat,
            _ => 0,
        }
    }
}

/// Every page that the server takes brings an upload closer to its end: it sends at most as many pages
/// as there are records from its start to the local head.
pub proof fn law_upload_makes_progress(
    states: Seq<SyncUpload>,
    events: Seq<SyncUploadEvent>,
    host: HostId,
    tag: String,
    local: RecordIdx,
    remote: Option<RecordIdx>,
    page_size: u64,
    n: int,
)
    requires
        local >= head_or_start(remote),
        is_sync_upload_run(states, events),
        states[0].is_begin(host, tag, local, remote, page_size),
        0 <= n < states.len(),
    ensures
        pages(states, events, n) <= posted(states, events, n),
        job_of(states[n]) matches Some(job) ==> pages(states, events, n) == 0 || pages(
            states,
            events,
            n,
        ) < job.expected,
    decreases n,
{
    law_upload_counts(states, events, host, tag, local, remote, page_size, n);
    if n > 0 {
        law_upload_counts(states, events, host, tag, local, remote, page_size, n - 1);
        law_upload_makes_progress(states, events, host, tag, local, remote, page_size, n - 1);
    }
}

/// At `i` the store had no records.
pub open spec fn is_empty_page_at(
    states: Seq<SyncUpload>,
    events: Seq<SyncUploadEvent>,
    i: int,
) -> bool {
    &&& states[i] is ReadPage
    &&& events[i] matches SyncUploadEvent::PageRead(Ok(page)) && page@.len() == 0
}

/// What a store answers that has a record at every index up to `local`: a page from `start` on holds
/// the records of the indices that follow one another from there, and at least one up to `local`.
pub open spec fn store_has_up_to(
    states: Seq<SyncUpload>,
    events: Seq<SyncUploadEvent>,
    local: RecordIdx,
) -> bool {
    forall|i: int|
        #![trigger events[i]]
        0 <= i < events.len() ==> match (states[i], events[i]) {
            (SyncUpload::ReadPage { start, .. }, SyncUploadEvent::PageRead(Ok(page))) => {
                &&& start <= local ==> page@.len() > 0
                &&& forall|k: int| 0 <= k < page@.len() ==> (#[trigger] page@[k]).idx == start + k
            },
            _ => true,
        }
}

/// At `m` the server took a page whose record at `k` has the index `idx`.
pub open spec fn takes_at(
    states: Seq<SyncUpload>,
    events: Seq<SyncUploadEvent>,
    m: int,
    k: int,
    idx: int,
) -> bool {
    &&& states[m] matches SyncUpload::PostRecords { page, .. }
    &&& events[m] matches SyncUploadEvent::RecordsPosted(Ok(_))
    &&& 0 <= k < page@.len()
    &&& page@[k].idx == idx
}

/// The server took the record at `idx` before place `n`.
pub open spec fn has_taken(
    states: Seq<SyncUpload>,
    events: Seq<SyncUploadEvent>,
    n: int,
    idx: int,
) -> bool {
    exists|m: int, k: int| 0 <= m < n && #[trigger] takes_at(states, events, m, k, idx)
}

proof fn lemma_upload_takes(
    states: Seq<SyncUpload>,
    events: Seq<SyncUploadEvent>,
    host: HostId,
    tag: String,
    local: RecordIdx,
    remote: Option<RecordIdx>,
    page_size: u64,
    n: int,
)
    requires
        local >= head_or_start(remote),
        is_sync_upload_run(states, events),
        states[0].is_begin(host, tag, local, remote, page_size),
        store_has_up_to(states, events, local),
        0 <= n < states.len(),
    ensures
        forall|idx: int|
            head_or_start(remote) <= idx < head_or_start(remote) + posted(states, events, n)
                ==> #[trigger] has_taken(states, events, n, idx),
        match states[n] {
            SyncUpload::ShipBundles { page, .. } => forall|k: int|
                0 <= k < page@.len() ==> (#[trigger] page@[k]).idx == head_or_start(remote)
                    + posted(states, events, n) + k,
            SyncUpload::PostRecords { page, .. } => forall|k: int|
                0 <= k < page@.len() ==> (#[trigger] page@[k]).idx == head_or_start(remote)
                    + posted(states, events, n) + k,
            _ => true,
        },
    decreases n,
{
    if n > 0 {
        let event = events[n - 1];
        law_upload_counts(states, events, host, tag, local, remote, page_size, n - 1);
        lemma_upload_takes(states, events, host, tag, local, remote, page_size, n - 1);
        let from = head_or_start(remote);
        let before = posted(states, events, n - 1);
        assert forall|idx: int|
            from <= idx < from + posted(states, events, n) implies #[trigger] has_taken(
            states,
            events,
            n,
            idx,
        ) by {
            if idx < from + before {
                assert(has_taken(states, events, n - 1, idx));
                let (m, k) = choose|m: int, k: int|
                    0 <= m < n - 1 && #[trigger] takes_at(states, events, m, k, idx);
                assert(takes_at(states, events, m, k, idx));
            } else {
                assert(takes_at(states, events, n - 1, idx - from - before, idx));
            }
        }
    }
}

/// An upload goes on until the states match. From a store that has a record at every index up to its
/// head, an upload that succeeds has had the server take every record from where the remote was to
/// the local head, the head included. Left out is only a store of more records than can be counted.
pub proof fn law_upload_reaches_the_head(
    states: Seq<SyncUpload>,
    events: Seq<SyncUploadEvent>,
    host: HostId,
    tag: String,
    local: RecordIdx,
    remote: Option<RecordIdx>,
    page_size: u64,
    n: int,
)
    requires
        local >= head_or_start(remote),
        local - head_or_start(remote) < u64::MAX,
        is_sync_upload_run(states, events),
        states[0].is_begin(host, tag, local, remote, page_size),
        store_has_up_to(states, events, local),
        0 <= n < states.len(),
        states[n] matches SyncUpload::Done(Ok(_)),
    ensures
        forall|idx: int|
            head_or_start(remote) <= idx <= local ==> #[trigger] has_taken(states, events, n, idx),
{
    law_upload_counts(states, events, host, tag, local, remote, page_size, n);
    lemma_upload_takes(states, events, host, tag, local, remote, page_size, n);
    let from = head_or_start(remote);
    if posted(states, events, n) < span(from, local) {
        let i = choose|i: int| 0 <= i < n && is_empty_page_at(states, events, i);
        let event = events[i];
        law_upload_counts(states, events, host, tag, local, remote, page_size, i);
        lemma_posted_grows(states, events, i, n);
    }
}

proof fn lemma_posted_grows(
    states: Seq<SyncUpload>,
    events: Seq<SyncUploadEvent>,
    i: int,
    n: int,
)
    requires
        i <= n,
    ensures
        posted(states, events, i) <= posted(states, events, n),
    decreases n - i,
{
    if i < n {
        lemma_posted_grows(states, events, i, n - 1);
    }
}

/// A page of packfile manifests is sent only after the bundles of exactly its manifests have been
/// uploaded.
pub proof fn law_bundles_before_manifests(
    states: Seq<SyncUpload>,
    events: Seq<SyncUploadEvent>,
    n: int,
) -> (at: int)
    requires
        is_sync_upload_run(states, events),
        states[0] is ReadPage,
        0 <= n < states.len(),
        states[n] matches SyncUpload::PostRecords { job, .. } && job.tag@ == PACKFILE_TAG@,
    ensures
        0 <= at < n,
        states[n] matches SyncUpload::PostRecords { job, page } && states[at]
            == (SyncUpload::ShipBundles { job, page }),
        events[at] matches SyncUploadEvent::BundlesShipped(Ok(_)),
    decreases n,
{
    if n == 0 {
        0
    } else {
        let event = events[n - 1];
        if states[n - 1] is PostRecords {
            law_bundles_before_manifests(states, events, n - 1)
        } else {
            n - 1
        }
    }
}

} // verus!
