//! Downloading the records of one host and tag, page by page.
//!
//! [`sync_download`] decides what to do; whoever drives it reads and writes the store and talks to
//! the server. A state says what is to be done next, the event what came of it.

use vstd::prelude::*;

use crate::packfile::download::DownloadError;
use crate::packfile::record::PACKFILE_TAG;
use crate::record::domain::{ids, record_ids, EncryptedData, HostId, Record, RecordId, RecordIdx};
use crate::record::error::SyncError;
use crate::record::upload::{head_or_start, span, span_of};
use crate::text::same_text;

verus! {

/// A download under way.
#[derive(Clone, Debug, PartialEq, Eq)]
pub struct DownloadJob {
    pub host: HostId,
    pub tag: String,
    /// Where the local store was when the download began.
    pub local: RecordIdx,
    /// How many records there are from there to the head of the remote store, both ends included.
    pub expected: u64,
    /// How many records are fetched at once.
    pub page_size: u64,
    /// How many records have been downloaded.
    pub progress: u64,
}

/// What is to be done next for a download.
#[derive(Debug)]
pub enum SyncDownload {
    /// Read the index of the last record of `host` and `tag` in the local store.
    ReadLast {
        host: HostId,
        tag: String,
        local: Option<RecordIdx>,
        remote: RecordIdx,
        page_size: u64,
    },
    /// Fetch up to `job.page_size` records of the job's host and tag from the server, from `start`
    /// on. `ids` are those that the download has brought so far.
    FetchPage { job: DownloadJob, start: RecordIdx, ids: Vec<RecordId> },
    /// Download the history that the manifests in `page` cover.
    ExpandBundles { job: DownloadJob, page: Vec<Record<EncryptedData>>, ids: Vec<RecordId> },
    /// Add the records of `page` to the local store.
    StorePage { job: DownloadJob, page: Vec<Record<EncryptedData>>, ids: Vec<RecordId> },
    /// Nothing: the ids of what the download brought, or why it failed.
    Done(Result<Vec<RecordId>, SyncError>),
}

/// What came of a step of a download.
#[derive(Debug)]
pub enum SyncDownloadEvent {
    /// The head of the local store was read.
    LastRead(Result<Option<RecordIdx>, String>),
    /// A page was fetched.
    PageFetched(Result<Vec<Record<EncryptedData>>, String>),
    /// The history of the bundles is in the local store: the ids of its records.
    BundlesExpanded(Result<Vec<RecordId>, DownloadError>),
    /// The page was added to the local store.
    PageStored(Result<(), String>),
}

impl DownloadJob {
    /// The job goes up to an index, and is not yet there.
    pub open spec fn wf(self) -> bool {
        &&& self.local + self.expected <= u64::MAX + 1
        &&& self.progress == 0 || self.progress < self.expected
    }
}

impl SyncDownload {
    pub open spec fn wf(self) -> bool {
        match self {
            SyncDownload::ReadLast { .. } => true,
            SyncDownload::FetchPage { job, start, .. } => job.wf() && start == job.local
                + job.progress,
            SyncDownload::ExpandBundles { job, page, .. } => job.wf() && page@.len() > 0
                && job.tag@ == PACKFILE_TAG@,
            SyncDownload::StorePage { job, page, .. } => job.wf() && page@.len() > 0,
            SyncDownload::Done(_) => true,
        }
    }

    /// Starts the download of the records of `host` and `tag` from `local` to `remote`.
    pub fn begin(
        host: HostId,
        tag: String,
        local: Option<RecordIdx>,
        remote: RecordIdx,
        page_size: u64,
    ) -> (state: SyncDownload)
        ensures
            state == (SyncDownload::ReadLast { host, tag, local, remote, page_size }),
            state.wf(),
    {
        SyncDownload::ReadLast { host, tag, local, remote, page_size }
    }
}

/// Where a download starts: at the head of the store as it is now, or where it was known to be, if
/// that is further on.
pub open spec fn live_head(head: Option<RecordIdx>, local: Option<RecordIdx>) -> RecordIdx {
    if head_or_start(head) >= head_or_start(local) {
        head_or_start(head)
    } else {
        head_or_start(local)
    }
}

/// How a download goes on: what `after` is, where `event` came of what `before` asked for. An event
/// that was not asked for changes nothing.
pub open spec fn sync_download_step(
    before: SyncDownload,
    event: SyncDownloadEvent,
    after: SyncDownload,
) -> bool {
    match (before, event) {
        (
            SyncDownload::ReadLast { host, tag, local, remote, page_size },
            SyncDownloadEvent::LastRead(Ok(head)),
        ) => {
            let from = live_head(head, local);
            &&& after matches SyncDownload::FetchPage { job, start, ids: brought }
            &&& job == (DownloadJob {
                host,
                tag,
                local: from,
                expected: span(from, remote),
                page_size,
                progress: 0,
            })
            &&& start == from
            &&& brought@ == Seq::<RecordId>::empty()
        },
        (SyncDownload::ReadLast { .. }, SyncDownloadEvent::LastRead(Err(msg))) => after
            == SyncDownload::Done(Err(SyncError::LocalStoreError { msg })),
        (
            SyncDownload::FetchPage { job, ids: brought, .. },
            SyncDownloadEvent::PageFetched(Ok(page)),
        ) => if page@.len() == 0 {
            after == SyncDownload::Done(Ok(brought))
        } else if job.tag@ == PACKFILE_TAG@ {
            after == (SyncDownload::ExpandBundles { job, page, ids: brought })
        } else {
            after == (SyncDownload::StorePage { job, page, ids: brought })
        },
        (SyncDownload::FetchPage { .. }, SyncDownloadEvent::PageFetched(Err(msg))) => after
            == SyncDownload::Done(Err(SyncError::RemoteRequestError { msg })),
        (
            SyncDownload::ExpandBundles { job, page, ids: brought },
            SyncDownloadEvent::BundlesExpanded(Ok(expanded)),
        ) => {
            &&& after matches SyncDownload::StorePage { job: j, page: p, ids: all }
            &&& j == job && p == page
            &&& all@ == brought@ + expanded@
        },
        (SyncDownload::ExpandBundles { .. }, SyncDownloadEvent::BundlesExpanded(Err(e))) => {
            &&& after matches SyncDownload::Done(Err(SyncError::RemoteRequestError { msg }))
            &&& msg@ == e.text()
        },
        (
            SyncDownload::StorePage { job, page, ids: brought },
            SyncDownloadEvent::PageStored(Ok(_)),
        ) => {
            let progress = (job.progress + page@.len()) as u64;
            if progress >= job.expected {
                &&& after matches SyncDownload::Done(Ok(all))
                &&& all@ == brought@ + ids(page@)
            } else {
                &&& after matches SyncDownload::FetchPage { job: j, start, ids: all }
                &&& j == DownloadJob { progress, ..job }
                &&& start == job.local + progress
                &&& all@ == brought@ + ids(page@)
            }
        },
        (SyncDownload::StorePage { .. }, SyncDownloadEvent::PageStored(Err(msg))) => after
            == SyncDownload::Done(Err(SyncError::LocalStoreError { msg })),
        _ => after == before,
    }
}

/// Where a page was stored, the number of records downloaded can be counted.
pub open spec fn can_count_page(state: SyncDownload, event: SyncDownloadEvent) -> bool {
    match (state, event) {
        (
            SyncDownload::StorePage { job, page, .. },
            SyncDownloadEvent::PageStored(Ok(_)),
        ) => job.progress + page@.len() <= u64::MAX,
        _ => true,
    }
}

/// Goes on with the download of one host and tag.
///
/// A page of packfile manifests is stored only after the history that its manifests cover, so that a
/// manifest in the store always has its history.
pub fn sync_download(state: SyncDownload, event: SyncDownloadEvent) -> (next: SyncDownload)
    requires
        state.wf(),
        can_count_page(state, event),
    ensures
        sync_download_step(state, event, next),
        next.wf(),
{
    match (state, event) {
        (
            SyncDownload::ReadLast { host, tag, local, remote, page_size },
            SyncDownloadEvent::LastRead(read),
        ) => {
            match read {
                Ok(head) => {
                    let known: u64 = match local {
                        Some(idx) => idx,
                        None => 0,
                    };
                    let from: u64 = match head {
                        Some(idx) => if idx >= known {
                            idx
                        } else {
                            known
                        },
                        None => known,
                    };
                    let expected: u64 = span_of(from, remote);
                    let job = DownloadJob {
                        host,
                        tag,
                        local: from,
                        expected,
                        page_size,
                        progress: 0,
                    };
                    SyncDownload::FetchPage { job, start: from, ids: Vec::new() }
                },
                Err(msg) => SyncDownload::Done(Err(SyncError::LocalStoreError { msg })),
            }
        },
        (
            SyncDownload::FetchPage { job, ids: brought, .. },
            SyncDownloadEvent::PageFetched(fetched),
        ) => {
            match fetched {
                Ok(page) => if page.len() == 0 {
                    SyncDownload::Done(Ok(brought))
                } else if same_text(job.tag.as_str(), PACKFILE_TAG) {
                    SyncDownload::ExpandBundles { job, page, ids: brought }
                } else {
                    SyncDownload::StorePage { job, page, ids: brought }
                },
                Err(msg) => SyncDownload::Done(Err(SyncError::RemoteRequestError { msg })),
            }
        },
        (
            SyncDownload::ExpandBundles { job, page, ids: brought },
            SyncDownloadEvent::BundlesExpanded(done),
        ) => {
            match done {
                Ok(expanded) => {
                    let mut all = brought;
                    let mut new = expanded;
                    all.append(&mut new);
                    SyncDownload::StorePage { job, page, ids: all }
                },
                Err(e) => SyncDownload::Done(
                    Err(SyncError::RemoteRequestError { msg: e.message() }),
                ),
            }
        },
        (
            SyncDownload::StorePage { job, page, ids: brought },
            SyncDownloadEvent::PageStored(stored),
        ) => {
            match stored {
                Ok(_) => {
                    let mut all = brought;
                    let mut new = record_ids(&page);
                    all.append(&mut new);
                    let progress: u64 = job.progress + page.len() as u64;
                    if progress >= job.expected {
                        SyncDownload::Done(Ok(all))
                    } else {
                        let start: u64 = job.local + progress;
                        SyncDownload::FetchPage {
                            job: DownloadJob { progress, ..job },
                            start,
                            ids: all,
                        }
                    }
                },
                Err(msg) => SyncDownload::Done(Err(SyncError::LocalStoreError { msg })),
            }
        },
        (state, _) => state,
    }
}

/// The states that a download goes through, and the events between them.
pub open spec fn is_sync_download_run(
    states: Seq<SyncDownload>,
    events: Seq<SyncDownloadEvent>,
) -> bool {
    &&& states.len() == events.len() + 1
    &&& forall|i: int|
        #![trigger events[i]]
        0 <= i < events.len() ==> can_count_page(states[i], events[i]) && sync_download_step(
            states[i],
            events[i],
            states[i + 1],
        )
}

/// How many records of the tag were stored before place `n`.
pub open spec fn stored(states: Seq<SyncDownload>, events: Seq<SyncDownloadEvent>, n: int) -> nat
    decreases n,
{
    if n <= 0 {
        0
    } else {
        stored(states, events, n - 1) + match (states[n - 1], events[n - 1]) {
            (SyncDownload::StorePage { page, .. }, SyncDownloadEvent::PageStored(Ok(_))) => {
                page@.len()
            },
            _ => 0,
        }
    }
}

/// The ids of all that came into the store before place `n`: the history that bundles brought, and
/// the records of the tag, as they came.
pub open spec fn brought(
    states: Seq<SyncDownload>,
    events: Seq<SyncDownloadEvent>,
    n: int,
) -> Seq<RecordId>
    decreases n,
{
    if n <= 0 {
        Seq::empty()
    } else {
        brought(states, events, n - 1) + match (states[n - 1], events[n - 1]) {
            (
                SyncDownload::ExpandBundles { .. },
                SyncDownloadEvent::BundlesExpanded(Ok(expanded)),
            ) => expanded@,
            (SyncDownload::StorePage { page, .. }, SyncDownloadEvent::PageStored(Ok(_))) => ids(
                page@,
            ),
            _ => Seq::empty(),
        }
    }
}

/// The job of a state, and the ids that it holds, where it has them.
pub open spec fn job_of(state: SyncDownload) -> Option<(DownloadJob, Seq<RecordId>)> {
    match state {
        SyncDownload::FetchPage { job, ids: all, .. } => Some((job, all@)),
        SyncDownload::ExpandBundles { job, ids: all, .. } => Some((job, all@)),
        SyncDownload::StorePage { job, ids: all, .. } => Some((job, all@)),
        _ => None,
    }
}

/// At `i` the server had no records.
pub open spec fn is_empty_page_at(
    states: Seq<SyncDownload>,
    events: Seq<SyncDownloadEvent>,
    i: int,
) -> bool {
    &&& states[i] is FetchPage
    &&& events[i] matches SyncDownloadEvent::PageFetched(Ok(page)) && page@.len() == 0
}

/// The head of the local store when a download began.
pub open spec fn head_read(
    states: Seq<SyncDownload>,
    events: Seq<SyncDownloadEvent>,
    i: int,
    head: Option<RecordIdx>,
) -> bool {
    states[i] is ReadLast && events[i] == SyncDownloadEvent::LastRead(Ok(head))
}

/// A download starts at the head of the local store as it is when it runs, or where the store was
/// known to be, if that is further on, and fetches on exactly as many records past that as have been
/// stored. It succeeds with the ids of everything that came into the store, the history of bundles
/// included, and only when the records stored are all from its start to the head of the remote store
/// or the server had no more.
/// The place where the head was read, and the head, are returned.
pub proof fn law_download_starts_at_live_head(
    states: Seq<SyncDownload>,
    events: Seq<SyncDownloadEvent>,
    host: HostId,
    tag: String,
    local: Option<RecordIdx>,
    remote: RecordIdx,
    page_size: u64,
    n: int,
) -> (at: (int, Option<RecordIdx>))
    requires
        is_sync_download_run(states, events),
        states[0] == (SyncDownload::ReadLast { host, tag, local, remote, page_size }),
        0 <= n < states.len(),
    ensures
        states[n].wf(),
        states[n] is ReadLast ==> states[n] == states[0] && brought(states, events, n)
            == Seq::<RecordId>::empty() && stored(states, events, n) == 0,
        (job_of(states[n]) is Some || states[n] matches SyncDownload::Done(Ok(_))) ==> 0 <= at.0
            < n && head_read(states, events, at.0, at.1),
        job_of(states[n]) matches Some((job, all)) ==> {
            &&& job.host == host && job.tag == tag && job.page_size == page_size
            &&& job.local == live_head(at.1, local)
            &&& job.expected == span(live_head(at.1, local), remote)
            &&& job.progress == stored(states, events, n)
            &&& all == brought(states, events, n)
        },
        states[n] matches SyncDownload::FetchPage { start, .. } ==> start == live_head(
            at.1,
            local,
        ) + stored(states, events, n),
        states[n] matches SyncDownload::Done(Ok(all)) ==> {
            &&& all@ == brought(states, events, n)
            &&& stored(states, events, n) >= span(live_head(at.1, local), remote) || exists|
                i: int,
            | 0 <= i < n && is_empty_page_at(states, events, i)
        },
    decreases n,
{
    if n == 0 {
        (0, None)
    } else {
        let event = events[n - 1];
        let at = law_download_starts_at_live_head(
            states,
            events,
            host,
            tag,
            local,
            remote,
            page_size,
            n - 1,
        );
        assert(brought(states, events, n - 1) + Seq::<RecordId>::empty() =~= brought(
            states,
            events,
            n - 1,
        ));
        if states[n - 1] is ReadLast {
            match events[n - 1] {
                SyncDownloadEvent::LastRead(Ok(head)) => (n - 1, head),
                _ => at,
            }
        } else {
            if states[n - 1] is FetchPage && states[n] is Done {
                if events[n - 1] matches SyncDownloadEvent::PageFetched(Ok(_)) {
                    assert(is_empty_page_at(states, events, n - 1));
                }
            }
            at
        }
    }
}

/// Nothing is fetched that comes before the head of the local store as it is when the download runs.
/// So of the history that a bundle brought, no record but the last is fetched again.
pub proof fn law_nothing_before_the_head_is_fetched(
    states: Seq<SyncDownload>,
    events: Seq<SyncDownloadEvent>,
    i: int,
    head: RecordIdx,
    n: int,
)
    requires
        is_sync_download_run(states, events),
        states[0] is ReadLast,
        0 <= i < n < states.len(),
        head_read(states, events, i, Some(head)),
    ensures
        job_of(states[n]) matches Some((job, _)) ==> job.local >= head,
        states[n] matches SyncDownload::FetchPage { start, .. } ==> start >= head,
        !(states[n] is ReadLast),
    decreases n,
{
    match states[0] {
        SyncDownload::ReadLast { host, tag, local, remote, page_size } => {
            law_download_starts_at_live_head(
                states,
                events,
                host,
                tag,
                local,
                remote,
                page_size,
                n,
            );
        },
        _ => {},
    }
    let event = events[n - 1];
    if i < n - 1 {
        law_nothing_before_the_head_is_fetched(states, events, i, head, n - 1);
    }
}

/// Where the local store is already as far as the remote was known to be, or beyond, a download asks the
/// server only once.
pub proof fn law_nothing_short_asks_once(
    states: Seq<SyncDownload>,
    events: Seq<SyncDownloadEvent>,
    host: HostId,
    tag: String,
    local: Option<RecordIdx>,
    remote: RecordIdx,
    page_size: u64,
    n: int,
)
    requires
        is_sync_download_run(states, events),
        states[0] == (SyncDownload::ReadLast { host, tag, local, remote, page_size }),
        0 <= n < states.len(),
        states[n] matches SyncDownload::FetchPage { job, .. } && job.local >= remote,
    ensures
        states[n] matches SyncDownload::FetchPage { job, .. } && job.expected <= 1,
        stored(states, events, n) == 0,
{
    law_download_starts_at_live_head(states, events, host, tag, local, remote, page_size, n);
}

/// How many pages were stored before place `n`.
pub open spec fn pages(states: Seq<SyncDownload>, events: Seq<SyncDownloadEvent>, n: int) -> nat
    decreases n,
{
    if n <= 0 {
        0
    } else {
        pages(states, events, n - 1) + match (states[n - 1], events[n - 1]) {
            (SyncDownload::StorePage { .. }, SyncDownloadEvent::PageStored(Ok(_))) => 1nat,
            _ => 0,
        }
    }
}

/// Every page that is stored brings a download closer to its end: it stores at most as many pages as
/// there are records from its start to the head of the remote store, and one where there are none.
pub proof fn law_download_makes_progress(
    states: Seq<SyncDownload>,
    events: Seq<SyncDownloadEvent>,
    host: HostId,
    tag: String,
    local: Option<RecordIdx>,
    remote: RecordIdx,
    page_size: u64,
    n: int,
)
    requires
        is_sync_download_run(states, events),
        states[0] == (SyncDownload::ReadLast { host, tag, local, remote, page_size }),
        0 <= n < states.len(),
    ensures
        pages(states, events, n) <= stored(states, events, n),
        job_of(states[n]) matches Some((job, _)) ==> pages(states, events, n) == 0 || pages(
            states,
            events,
            n,
        ) < job.expected,
    decreases n,
{
    law_download_starts_at_live_head(states, events, host, tag, local, remote, page_size, n);
    if n > 0 {
        law_download_starts_at_live_head(
            states,
            events,
            host,
            tag,
            local,
            remote,
            page_size,
            n - 1,
        );
        law_download_makes_progress(
            states,
            events,
            host,
            tag,
            local,
            remote,
            page_size,
            n - 1,
        );
    }
}

/// What a server answers that has a record at every index up to `remote`: a page from `start` on holds
/// the records of the indices that follow one another from there, and at least one up to `remote`.
pub open spec fn server_has_up_to(
    states: Seq<SyncDownload>,
    events: Seq<SyncDownloadEvent>,
    remote: RecordIdx,
) -> bool {
    forall|i: int|
        #![trigger events[i]]
        0 <= i < events.len() ==> match (states[i], events[i]) {
            (SyncDownload::FetchPage { start, .. }, SyncDownloadEvent::PageFetched(Ok(page))) => {
                &&& start <= remote ==> page@.len() > 0
                &&& follows(page@, start as int)
            },
            _ => true,
        }
}

/// At `m` a page was stored whose record at `k` has the index `idx`.
pub open spec fn stores_at(
    states: Seq<SyncDownload>,
    events: Seq<SyncDownloadEvent>,
    m: int,
    k: int,
    idx: int,
) -> bool {
    &&& states[m] matches SyncDownload::StorePage { page, .. }
    &&& events[m] matches SyncDownloadEvent::PageStored(Ok(_))
    &&& 0 <= k < page@.len()
    &&& page@[k].idx == idx
}

/// The record at `idx` was stored before place `n`.
pub open spec fn has_stored(
    states: Seq<SyncDownload>,
    events: Seq<SyncDownloadEvent>,
    n: int,
    idx: int,
) -> bool {
    exists|m: int, k: int| 0 <= m < n && #[trigger] stores_at(states, events, m, k, idx)
}

/// The records of a page are those of the indices that follow one another from `start` on.
pub open spec fn follows(page: Seq<Record<EncryptedData>>, start: int) -> bool {
    forall|k: int| 0 <= k < page.len() ==> (#[trigger] page[k]).idx == start + k
}

proof fn lemma_download_follows(
    states: Seq<SyncDownload>,
    events: Seq<SyncDownloadEvent>,
    host: HostId,
    tag: String,
    local: Option<RecordIdx>,
    remote: RecordIdx,
    page_size: u64,
    i: int,
    head: Option<RecordIdx>,
    n: int,
)
    requires
        is_sync_download_run(states, events),
        states[0] == (SyncDownload::ReadLast { host, tag, local, remote, page_size }),
        server_has_up_to(states, events, remote),
        0 <= i < n < states.len(),
        head_read(states, events, i, head),
    ensures
        job_of(states[n]) matches Some((job, _)) ==> {
            &&& job.local == live_head(head, local)
            &&& job.expected == span(live_head(head, local), remote)
            &&& job.progress == stored(states, events, n)
        },
        match states[n] {
            SyncDownload::ReadLast { .. } => false,
            SyncDownload::FetchPage { start, .. } => start == live_head(head, local) + stored(
                states,
                events,
                n,
            ),
            SyncDownload::ExpandBundles { page, .. } => follows(
                page@,
                live_head(head, local) + stored(states, events, n),
            ),
            SyncDownload::StorePage { page, .. } => follows(
                page@,
                live_head(head, local) + stored(states, events, n),
            ),
            SyncDownload::Done(Ok(_)) => stored(states, events, n) >= span(
                live_head(head, local),
                remote,
            ) || live_head(head, local) + stored(states, events, n) > remote,
            SyncDownload::Done(Err(_)) => true,
        },
    decreases n,
{
    let event = events[n - 1];
    law_download_starts_at_live_head(states, events, host, tag, local, remote, page_size, n - 1);
    if i < n - 1 {
        lemma_download_follows(
            states,
            events,
            host,
            tag,
            local,
            remote,
            page_size,
            i,
            head,
            n - 1,
        );
    }
}

proof fn lemma_download_stores(
    states: Seq<SyncDownload>,
    events: Seq<SyncDownloadEvent>,
    host: HostId,
    tag: String,
    local: Option<RecordIdx>,
    remote: RecordIdx,
    page_size: u64,
    i: int,
    head: Option<RecordIdx>,
    n: int,
)
    requires
        is_sync_download_run(states, events),
        states[0] == (SyncDownload::ReadLast { host, tag, local, remote, page_size }),
        server_has_up_to(states, events, remote),
        0 <= i < n < states.len(),
        head_read(states, events, i, head),
    ensures
        forall|idx: int|
            live_head(head, local) <= idx < live_head(head, local) + stored(states, events, n)
                ==> #[trigger] has_stored(states, events, n, idx),
    decreases n,
{
    let event = events[n - 1];
    if i == n - 1 {
        law_download_starts_at_live_head(states, events, host, tag, local, remote, page_size, i);
    } else {
        let from = live_head(head, local);
        let before = stored(states, events, n - 1);
        lemma_download_follows(
            states,
            events,
            host,
            tag,
            local,
            remote,
            page_size,
            i,
            head,
            n - 1,
        );
        lemma_download_stores(
            states,
            events,
            host,
            tag,
            local,
            remote,
            page_size,
            i,
            head,
            n - 1,
        );
        assert forall|idx: int| from <= idx < from + stored(states, events, n) implies #[trigger]
            has_stored(states, events, n, idx) by {
            if idx < from + before {
                assert(has_stored(states, events, n - 1, idx));
                let (m, k) = choose|m: int, k: int|
                    0 <= m < n - 1 && #[trigger] stores_at(states, events, m, k, idx);
                assert(stores_at(states, events, m, k, idx));
            } else {
                assert(stores_at(states, events, n - 1, idx - from - before, idx));
            }
        }
    }
}

/// A download goes on until the states match. From a server that has a record at every index up to its
/// head, a download that succeeds has stored every record from where the local store was to the
/// remote head, the head included. Left out is only a store of more records than can be counted. The
/// place where the local head was read, and the head, are returned.
pub proof fn law_download_reaches_the_head(
    states: Seq<SyncDownload>,
    events: Seq<SyncDownloadEvent>,
    host: HostId,
    tag: String,
    local: Option<RecordIdx>,
    remote: RecordIdx,
    page_size: u64,
    n: int,
) -> (at: (int, Option<RecordIdx>))
    requires
        is_sync_download_run(states, events),
        states[0] == (SyncDownload::ReadLast { host, tag, local, remote, page_size }),
        server_has_up_to(states, events, remote),
        0 <= n < states.len(),
        states[n] matches SyncDownload::Done(Ok(_)),
    ensures
        0 <= at.0 < n && head_read(states, events, at.0, at.1),
        remote - live_head(at.1, local) < u64::MAX ==> forall|idx: int|
            live_head(at.1, local) <= idx <= remote ==> #[trigger] has_stored(
                states,
                events,
                n,
                idx,
            ),
{
    let at = law_download_starts_at_live_head(
        states,
        events,
        host,
        tag,
        local,
        remote,
        page_size,
        n,
    );
    let (i, head) = at;
    lemma_download_follows(states, events, host, tag, local, remote, page_size, i, head, n);
    lemma_download_stores(states, events, host, tag, local, remote, page_size, i, head, n);
    at
}

/// A page of packfile manifests is stored only after the history that exactly its manifests cover has
/// been brought into the store, and the ids of that history are among those returned.
pub proof fn law_history_before_manifests(
    states: Seq<SyncDownload>,
    events: Seq<SyncDownloadEvent>,
    n: int,
) -> (at: int)
    requires
        is_sync_download_run(states, events),
        states[0] is ReadLast,
        0 <= n < states.len(),
        states[n] matches SyncDownload::StorePage { job, .. } && job.tag@ == PACKFILE_TAG@,
    ensures
        0 <= at < n,
        ({
            &&& states[at] matches SyncDownload::ExpandBundles { job: j, page: p, ids: before }
            &&& states[n] matches SyncDownload::StorePage { job, page, ids: all }
            &&& events[at] matches SyncDownloadEvent::BundlesExpanded(Ok(expanded))
            &&& j == job && p == page
            &&& all@ == before@ + expanded@
        }),
    decreases n,
{
    if n == 0 {
        0
    } else {
        let event = events[n - 1];
        if states[n - 1] is StorePage {
            law_history_before_manifests(states, events, n - 1)
        } else {
            n - 1
        }
    }
}

} // verus!
