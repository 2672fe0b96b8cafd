//! What holds of every upload and download of one host and tag, said of what goes in and what comes
//! out.

use vstd::prelude::*;

use crate::record::domain::{ids, EncryptedData, HostId, Record, RecordId, RecordIdx};
use crate::record::download::{
    brought, follows, has_stored, is_sync_download_run, law_download_reaches_the_head,
    law_download_starts_at_live_head, server_has_up_to, stored, stores_at, sync_download,
    sync_download_step, DownloadJob, SyncDownload, SyncDownloadEvent,
};
use crate::record::error::SyncError;
use crate::record::upload::{
    has_taken, is_sync_upload_run, law_upload_counts, law_upload_reaches_the_head,
    posted, span_of, store_has_up_to, sync_upload, sync_upload_step,
    takes_at, SyncUpload, SyncUploadEvent, UploadJob,
};
use crate::text::str_debug;

verus! {

/// A span holds one index where its ends are equal, and one more for each index that its end moves on;
/// none where its end comes before its start. Only the span of all indices is counted one short.
pub proof fn law_span_counts_the_indices(from: RecordIdx, head: RecordIdx, n: u64)
    requires
        call_ensures(span_of, (from, head), n),
    ensures
        head < from <==> n == 0,
        (from <= head && !(from == 0 && head == u64::MAX)) ==> from + n == head + 1,
        (from == 0 && head == u64::MAX) ==> from + n == head,
{
}

/// The steps of an upload are those that [`sync_upload`] takes.
pub proof fn law_upload_steps(state: SyncUpload, event: SyncUploadEvent, next: SyncUpload)
    requires
        call_ensures(sync_upload, (state, event), next),
    ensures
        sync_upload_step(state, event, next),
        next.wf(),
{
}

/// An upload reads from where the remote store was known to be, or from the first index where it has
/// nothing, and counts from nothing to the last index of the local store.
pub proof fn law_upload_begins_where_the_remote_is(
    host: HostId,
    tag: String,
    local: RecordIdx,
    remote: Option<RecordIdx>,
    page_size: u64,
    state: SyncUpload,
)
    requires
        call_ensures(SyncUpload::begin, (host, tag, local, remote, page_size), state),
        remote matches Some(r) ==> r <= local,
    ensures
        state.is_begin(host, tag, local, remote, page_size),
        state matches SyncUpload::ReadPage { job, start } && {
            &&& job.host == host
            &&& job.tag == tag
            &&& job.page_size == page_size
            &&& job.progress == 0
            &&& job.remote == start
            &&& remote matches Some(r) ==> start == r
            &&& remote is None ==> start == 0
            &&& local - start < u64::MAX ==> start + job.expected == local + 1
            &&& local - start == u64::MAX ==> start + job.expected == local
        },
{
}

/// What is read goes on unchanged: a page that holds something is the page of the next state, sent at
/// once unless it is one of manifests, whose bundles go first; an empty one ends the upload with the
/// number counted so far.
pub proof fn law_upload_keeps_the_page_read(
    job: UploadJob,
    start: RecordIdx,
    page: Vec<Record<EncryptedData>>,
    next: SyncUpload,
)
    requires
        call_ensures(
            sync_upload,
            (SyncUpload::ReadPage { job, start }, SyncUploadEvent::PageRead(Ok(page))),
            next,
        ),
    ensures
        page@.len() == 0 ==> next == SyncUpload::Done(Ok(job.progress as i64)),
        (page@.len() > 0 && job.tag@ == "packfile"@) ==> next == (SyncUpload::ShipBundles {
            job,
            page,
        }),
        (page@.len() > 0 && job.tag@ != "packfile"@) ==> next == (SyncUpload::PostRecords {
            job,
            page,
        }),
{
}

/// Once its bundles are up, the page itself is sent, unchanged, whatever the ids of the bundles.
pub proof fn law_upload_sends_the_page_it_bundled(
    job: UploadJob,
    page: Vec<Record<EncryptedData>>,
    bundles: Vec<RecordId>,
    next: SyncUpload,
)
    requires
        call_ensures(
            sync_upload,
            (SyncUpload::ShipBundles { job, page }, SyncUploadEvent::BundlesShipped(Ok(bundles))),
            next,
        ),
    ensures
        next == (SyncUpload::PostRecords { job, page }),
{
}

/// A page that was sent counts with all its records, and nothing else of the job changes: the upload
/// ends with the count when that is all of them, and reads on right behind the page when it is not.
pub proof fn law_upload_counts_the_page_sent(
    job: UploadJob,
    page: Vec<Record<EncryptedData>>,
    next: SyncUpload,
)
    requires
        job.wf(),
        job.progress + page@.len() <= u64::MAX,
        call_ensures(
            sync_upload,
            (SyncUpload::PostRecords { job, page }, SyncUploadEvent::RecordsPosted(Ok(()))),
            next,
        ),
    ensures
        job.progress + page@.len() >= job.expected ==> next == SyncUpload::Done(
            Ok((job.progress + page@.len()) as i64),
        ),
        job.progress + page@.len() < job.expected ==> (next matches SyncUpload::ReadPage {
            job: j,
            start,
        } && {
            &&& j.progress == job.progress + page@.len()
            &&& start == job.remote + job.progress + page@.len()
            &&& j.host == job.host
            &&& j.tag == job.tag
            &&& j.remote == job.remote
            &&& j.expected == job.expected
            &&& j.page_size == job.page_size
        }),
{
}

/// A failure that an upload asked for ends it, with what the store or the server said.
pub proof fn law_upload_passes_failures_on(
    state: SyncUpload,
    event: SyncUploadEvent,
    next: SyncUpload,
)
    requires
        call_ensures(sync_upload, (state, event), next),
    ensures
        (state is ReadPage && event matches SyncUploadEvent::PageRead(Err(msg))) ==> (event
            matches SyncUploadEvent::PageRead(Err(msg)) && next == SyncUpload::Done(
            Err(SyncError::LocalStoreError { msg }),
        )),
        (state is ShipBundles && event matches SyncUploadEvent::BundlesShipped(Err(e))) ==> (event
            matches SyncUploadEvent::BundlesShipped(Err(e)) && next matches SyncUpload::Done(
            Err(SyncError::RemoteRequestError { msg }),
        ) && msg@ == e.text()),
        (state is PostRecords && event matches SyncUploadEvent::RecordsPosted(Err(msg))) ==> (event
            matches SyncUploadEvent::RecordsPosted(Err(msg)) && next == SyncUpload::Done(
            Err(SyncError::RemoteRequestError { msg }),
        )),
{
}

/// What an upload did not ask for changes nothing, and what is done stays done.
pub proof fn law_upload_ignores_what_it_did_not_ask_for(
    state: SyncUpload,
    event: SyncUploadEvent,
    next: SyncUpload,
)
    requires
        call_ensures(sync_upload, (state, event), next),
        state is Done || (state is ReadPage && !(event is PageRead)) || (state is ShipBundles && !(
        event is BundlesShipped)) || (state is PostRecords && !(event is RecordsPosted)),
    ensures
        next == state,
{
}

/// In every run of an upload, the page that is sent, or whose bundles are, is the page that was read
/// last: record for record, in every field. The place where it was read is returned.
pub proof fn law_page_sent_is_the_page_read(
    states: Seq<SyncUpload>,
    events: Seq<SyncUploadEvent>,
    n: int,
) -> (m: int)
    requires
        is_sync_upload_run(states, events),
        states[0] is ReadPage,
        0 <= n < states.len(),
        states[n] is ShipBundles || states[n] is PostRecords,
    ensures
        0 <= m < n,
        states[m] is ReadPage,
        states[n] matches SyncUpload::ShipBundles { page, .. } ==> events[m]
            == SyncUploadEvent::PageRead(Ok(page)),
        states[n] matches SyncUpload::PostRecords { page, .. } ==> events[m]
            == SyncUploadEvent::PageRead(Ok(page)),
        forall|i: int| m < i <= n ==> !(#[trigger] states[i] is ReadPage),
    decreases n,
{
    if n == 0 {
        0
    } else {
        let event = events[n - 1];
        if states[n - 1] is ReadPage {
            n - 1
        } else {
            law_page_sent_is_the_page_read(states, events, n - 1)
        }
    }
}

/// The number that an upload ends with is the sum of the lengths of the pages that the server took, and
/// it reads on as far behind its start as that sum. The sums after each place are returned.
pub proof fn law_upload_sums_the_pages(
    states: Seq<SyncUpload>,
    events: Seq<SyncUploadEvent>,
    host: HostId,
    tag: String,
    local: RecordIdx,
    remote: Option<RecordIdx>,
    page_size: u64,
) -> (sums: Seq<nat>)
    requires
        remote matches Some(r) ==> r <= local,
        is_sync_upload_run(states, events),
        states[0].is_begin(host, tag, local, remote, page_size),
    ensures
        sums.len() == states.len(),
        sums[0] == 0,
        forall|i: int|
            #![trigger events[i]]
            0 <= i < events.len() ==> (sums[i + 1] == sums[i] + if states[i] is PostRecords
                && events[i] matches SyncUploadEvent::RecordsPosted(Ok(_)) {
                states[i]->PostRecords_page@.len()
            } else {
                0
            }),
        forall|i: int|
            0 <= i < states.len() ==> match #[trigger] states[i] {
                SyncUpload::ReadPage { job, start } => {
                    &&& job.host == host && job.tag == tag && job.page_size == page_size
                    &&& remote matches Some(r) ==> start == r + sums[i]
                    &&& remote is None ==> start == sums[i]
                },
                SyncUpload::ShipBundles { job, .. } => job.host == host && job.tag == tag,
                SyncUpload::PostRecords { job, .. } => job.host == host && job.tag == tag,
                SyncUpload::Done(Ok(count)) => count == sums[i] as i64,
                SyncUpload::Done(Err(_)) => true,
            },
{
    let sums = Seq::new(states.len(), |i: int| posted(states, events, i));
    assert forall|i: int| 0 <= i < states.len() implies match #[trigger] states[i] {
        SyncUpload::ReadPage { job, start } => {
            &&& job.host == host && job.tag == tag && job.page_size == page_size
            &&& remote matches Some(r) ==> start == r + sums[i]
            &&& remote is None ==> start == sums[i]
        },
        SyncUpload::ShipBundles { job, .. } => job.host == host && job.tag == tag,
        SyncUpload::PostRecords { job, .. } => job.host == host && job.tag == tag,
        SyncUpload::Done(Ok(count)) => count == sums[i] as i64,
        SyncUpload::Done(Err(_)) => true,
    } by {
        law_upload_counts(states, events, host, tag, local, remote, page_size, i);
    }
    sums
}

/// An upload that succeeds leaves out no record: of a store that answers with the records of consecutive
/// indices, as far as its head, the server has taken one of each index from where it was to the local
/// head. Only the span of all indices, which cannot be counted, is left out.
pub proof fn law_upload_leaves_nothing_out(
    states: Seq<SyncUpload>,
    events: Seq<SyncUploadEvent>,
    host: HostId,
    tag: String,
    local: RecordIdx,
    remote: Option<RecordIdx>,
    page_size: u64,
    n: int,
    idx: int,
) -> (at: (int, int))
    requires
        remote matches Some(r) ==> r <= idx,
        0 <= idx <= local,
        local < u64::MAX || (remote matches Some(r) && r > 0),
        is_sync_upload_run(states, events),
        states[0].is_begin(host, tag, local, remote, page_size),
        forall|i: int|
            #![trigger events[i]]
            (0 <= i < events.len() && states[i] is ReadPage && events[i] is PageRead
                && events[i]->PageRead_0 is Ok) ==> {
                let (start, page) = (states[i]->ReadPage_start, events[i]->PageRead_0->Ok_0@);
                &&& start <= local ==> page.len() > 0
                &&& forall|k: int| 0 <= k < page.len() ==> (#[trigger] page[k]).idx == start + k
            },
        0 <= n < states.len(),
        states[n] matches SyncUpload::Done(Ok(_)),
    ensures
        0 <= at.0 < n,
        states[at.0] is PostRecords,
        events[at.0] matches SyncUploadEvent::RecordsPosted(Ok(_)),
        0 <= at.1 < states[at.0]->PostRecords_page@.len(),
        states[at.0]->PostRecords_page@[at.1].idx == idx,
{
    assert(store_has_up_to(states, events, local)) by {
        assert forall|i: int| #![trigger events[i]] 0 <= i < events.len() implies match (
            states[i],
            events[i],
        ) {
            (SyncUpload::ReadPage { start, .. }, SyncUploadEvent::PageRead(Ok(page))) => {
                &&& start <= local ==> page@.len() > 0
                &&& forall|k: int| 0 <= k < page@.len() ==> (#[trigger] page@[k]).idx == start + k
            },
            _ => true,
        } by {
            if states[i] is ReadPage && events[i] is PageRead && events[i]->PageRead_0 is Ok {
                let (start, page) = (states[i]->ReadPage_start, events[i]->PageRead_0->Ok_0@);
                assert(start <= local ==> page.len() > 0);
                assert(forall|k: int| 0 <= k < page.len() ==> (#[trigger] page[k]).idx == start + k);
            }
        }
    }
    law_upload_reaches_the_head(states, events, host, tag, local, remote, page_size, n);
    assert(has_taken(states, events, n, idx));
    choose|m: int, k: int| 0 <= m < n && #[trigger] takes_at(states, events, m, k, idx)
}

/// The steps of a download are those that [`sync_download`] takes.
pub proof fn law_download_steps(state: SyncDownload, event: SyncDownloadEvent, next: SyncDownload)
    requires
        call_ensures(sync_download, (state, event), next),
    ensures
        sync_download_step(state, event, next),
        next.wf(),
{
}

/// A download holds on to what it was asked for until it has read the head of the local store.
pub proof fn law_download_begins_with_the_head(
    host: HostId,
    tag: String,
    local: Option<RecordIdx>,
    remote: RecordIdx,
    page_size: u64,
    state: SyncDownload,
)
    requires
        call_ensures(SyncDownload::begin, (host, tag, local, remote, page_size), state),
    ensures
        state == (SyncDownload::ReadLast { host, tag, local, remote, page_size }),
{
}

/// A download starts at the further of the head that was read and the head that was known: at no index
/// before either, at one of the two, and at the first index where there is neither. It counts from
/// nothing to the last index of the remote store, and asks for nothing that lies behind both heads.
pub proof fn law_download_starts_at_the_further_head(
    host: HostId,
    tag: String,
    local: Option<RecordIdx>,
    remote: RecordIdx,
    page_size: u64,
    head: Option<RecordIdx>,
    next: SyncDownload,
)
    requires
        call_ensures(
            sync_download,
            (
                SyncDownload::ReadLast { host, tag, local, remote, page_size },
                SyncDownloadEvent::LastRead(Ok(head)),
            ),
            next,
        ),
    ensures
        next is FetchPage,
        ({
            let (job, start) = (next->FetchPage_job, next->FetchPage_start);
            &&& head matches Some(h) ==> h <= start
            &&& local matches Some(l) ==> l <= start
            &&& head == Some(start) || local == Some(start) || (head is None && local is None
                && start == 0)
            &&& job.local == start
            &&& job.host == host
            &&& job.tag == tag
            &&& job.page_size == page_size
            &&& job.progress == 0
            &&& next->FetchPage_ids@.len() == 0
            &&& remote < start <==> job.expected == 0
            &&& (start <= remote && remote - start < u64::MAX) ==> start + job.expected == remote
                + 1
            &&& remote - start == u64::MAX ==> start + job.expected == remote
        }),
{
}

/// What is fetched goes on unchanged: a page that holds something is the page of the next state, stored
/// at once unless it is one of manifests, whose history comes first; an empty one ends the download
/// with the ids gathered so far.
pub proof fn law_download_keeps_the_page_fetched(
    job: DownloadJob,
    start: RecordIdx,
    ids: Vec<RecordId>,
    page: Vec<Record<EncryptedData>>,
    next: SyncDownload,
)
    requires
        call_ensures(
            sync_download,
            (
                SyncDownload::FetchPage { job, start, ids },
                SyncDownloadEvent::PageFetched(Ok(page)),
            ),
            next,
        ),
    ensures
        page@.len() == 0 ==> next == SyncDownload::Done(Ok(ids)),
        (page@.len() > 0 && job.tag@ == "packfile"@) ==> next == (SyncDownload::ExpandBundles {
            job,
            page,
            ids,
        }),
        (page@.len() > 0 && job.tag@ != "packfile"@) ==> next == (SyncDownload::StorePage {
            job,
            page,
            ids,
        }),
{
}

/// Once the history that its manifests cover is there, the page itself is stored, unchanged, and the ids
/// of that history stand behind those gathered before, each of them and in their order.
pub proof fn law_download_gathers_the_history(
    job: DownloadJob,
    page: Vec<Record<EncryptedData>>,
    ids: Vec<RecordId>,
    covered: Vec<RecordId>,
    next: SyncDownload,
)
    requires
        call_ensures(
            sync_download,
            (
                SyncDownload::ExpandBundles { job, page, ids },
                SyncDownloadEvent::BundlesExpanded(Ok(covered)),
            ),
            next,
        ),
    ensures
        next is StorePage,
        next->StorePage_job == job,
        next->StorePage_page == page,
        next->StorePage_ids@.len() == ids@.len() + covered@.len(),
        forall|k: int|
            0 <= k < ids@.len() ==> #[trigger] ids@[k] == next->StorePage_ids@[k],
        forall|k: int|
            0 <= k < covered@.len() ==> #[trigger] covered@[k] == next->StorePage_ids@[ids@.len()
                + k],
{
}

/// A page that was stored counts with all its records, whose ids stand behind those gathered before;
/// nothing else of the job changes. The download ends with the ids when that is all of them, and
/// fetches on right behind the page when it is not.
pub proof fn law_download_counts_the_page_stored(
    job: DownloadJob,
    page: Vec<Record<EncryptedData>>,
    ids: Vec<RecordId>,
    next: SyncDownload,
) -> (all: Seq<RecordId>)
    requires
        job.wf(),
        job.progress + page@.len() <= u64::MAX,
        call_ensures(
            sync_download,
            (
                SyncDownload::StorePage { job, page, ids },
                SyncDownloadEvent::PageStored(Ok(())),
            ),
            next,
        ),
    ensures
        all.len() == ids@.len() + page@.len(),
        forall|k: int| 0 <= k < ids@.len() ==> #[trigger] ids@[k] == all[k],
        forall|k: int|
            0 <= k < page@.len() ==> (#[trigger] page@[k]).id == all[ids@.len() + k],
        job.progress + page@.len() >= job.expected ==> (next matches SyncDownload::Done(Ok(out))
            && out@ == all),
        job.progress + page@.len() < job.expected ==> (next matches SyncDownload::FetchPage {
            job: j,
            start,
            ids: out,
        } && {
            &&& out@ == all
            &&& j.progress == job.progress + page@.len()
            &&& start == job.local + job.progress + page@.len()
            &&& j.host == job.host
            &&& j.tag == job.tag
            &&& j.local == job.local
            &&& j.expected == job.expected
            &&& j.page_size == job.page_size
        }),
{
    match next {
        SyncDownload::Done(Ok(out)) => out@,
        SyncDownload::FetchPage { ids: out, .. } => out@,
        _ => arbitrary(),
    }
}

/// A failure that a download asked for ends it, with what the store or the server said.
pub proof fn law_download_passes_failures_on(
    state: SyncDownload,
    event: SyncDownloadEvent,
    next: SyncDownload,
)
    requires
        call_ensures(sync_download, (state, event), next),
    ensures
        (state is ReadLast && event matches SyncDownloadEvent::LastRead(Err(msg))) ==> (event
            matches SyncDownloadEvent::LastRead(Err(msg)) && next == SyncDownload::Done(
            Err(SyncError::LocalStoreError { msg }),
        )),
        (state is FetchPage && event matches SyncDownloadEvent::PageFetched(Err(msg))) ==> (event
            matches SyncDownloadEvent::PageFetched(Err(msg)) && next == SyncDownload::Done(
            Err(SyncError::RemoteRequestError { msg }),
        )),
        (state is ExpandBundles && event matches SyncDownloadEvent::BundlesExpanded(Err(e))) ==> (
        event matches SyncDownloadEvent::BundlesExpanded(Err(e)) && next
            matches SyncDownload::Done(Err(SyncError::RemoteRequestError { msg })) && msg@
            == e.text()),
        (state is StorePage && event matches SyncDownloadEvent::PageStored(Err(msg))) ==> (event
            matches SyncDownloadEvent::PageStored(Err(msg)) && next == SyncDownload::Done(
            Err(SyncError::LocalStoreError { msg }),
        )),
{
}

/// What a download did not ask for changes nothing, and what is done stays done.
pub proof fn law_download_ignores_what_it_did_not_ask_for(
    state: SyncDownload,
    event: SyncDownloadEvent,
    next: SyncDownload,
)
    requires
        call_ensures(sync_download, (state, event), next),
        state is Done || (state is ReadLast && !(event is LastRead)) || (state is FetchPage && !(
        event is PageFetched)) || (state is ExpandBundles && !(event is BundlesExpanded)) || (
        state is StorePage && !(event is PageStored)),
    ensures
        next == state,
{
}

/// In every run of a download, the page that is stored, or whose history is fetched, is the page that
/// was fetched last: record for record, in every field. The place where it was fetched is returned.
pub proof fn law_page_stored_is_the_page_fetched(
    states: Seq<SyncDownload>,
    events: Seq<SyncDownloadEvent>,
    n: int,
) -> (m: int)
    requires
        is_sync_download_run(states, events),
        states[0] is ReadLast,
        0 <= n < states.len(),
        states[n] is ExpandBundles || states[n] is StorePage,
    ensures
        0 <= m < n,
        states[m] is FetchPage,
        states[n] matches SyncDownload::ExpandBundles { page, .. } ==> events[m]
            == SyncDownloadEvent::PageFetched(Ok(page)),
        states[n] matches SyncDownload::StorePage { page, .. } ==> events[m]
            == SyncDownloadEvent::PageFetched(Ok(page)),
        forall|i: int| m < i <= n ==> !(#[trigger] states[i] is FetchPage),
    decreases n,
{
    if n == 0 {
        0
    } else {
        let event = events[n - 1];
        if states[n - 1] is FetchPage {
            n - 1
        } else {
            law_page_stored_is_the_page_fetched(states, events, n - 1)
        }
    }
}

/// What one step of a download brings into the store: the history of bundles, or the records of a page.
pub open spec fn gain(state: SyncDownload, event: SyncDownloadEvent) -> (Seq<RecordId>, nat) {
    match (state, event) {
        (
            SyncDownload::ExpandBundles { .. },
            SyncDownloadEvent::BundlesExpanded(Ok(covered)),
        ) => (covered@, 0),
        (SyncDownload::StorePage { page, .. }, SyncDownloadEvent::PageStored(Ok(_))) => (
            page@.map_values(|r: Record<EncryptedData>| r.id),
            page@.len(),
        ),
        _ => (Seq::empty(), 0),
    }
}

/// The ids that a download ends with are, one behind the other, those of the history that bundles
/// brought and of the pages that were stored, each once and in the order in which they came. The ids
/// and the number of records stored after each place are returned.
pub proof fn law_download_gathers_what_came(
    states: Seq<SyncDownload>,
    events: Seq<SyncDownloadEvent>,
) -> (gathered: (Seq<Seq<RecordId>>, Seq<nat>))
    requires
        is_sync_download_run(states, events),
        states[0] is ReadLast,
    ensures
        gathered.0.len() == states.len(),
        gathered.1.len() == states.len(),
        gathered.0[0].len() == 0,
        gathered.1[0] == 0,
        forall|i: int|
            #![trigger events[i]]
            0 <= i < events.len() ==> {
                &&& gathered.0[i + 1] == gathered.0[i] + gain(states[i], events[i]).0
                &&& gathered.1[i + 1] == gathered.1[i] + gain(states[i], events[i]).1
            },
        forall|i: int|
            0 <= i < states.len() ==> match #[trigger] states[i] {
                SyncDownload::ReadLast { .. } => states[i] == states[0],
                SyncDownload::FetchPage { job, start, ids } => {
                    &&& ids@ == gathered.0[i]
                    &&& start == job.local + gathered.1[i]
                    &&& job.host == states[0]->ReadLast_host
                    &&& job.tag == states[0]->ReadLast_tag
                    &&& job.page_size == states[0]->ReadLast_page_size
                },
                SyncDownload::ExpandBundles { ids, .. } => ids@ == gathered.0[i],
                SyncDownload::StorePage { ids, .. } => ids@ == gathered.0[i],
                SyncDownload::Done(Ok(ids)) => ids@ == gathered.0[i],
                SyncDownload::Done(Err(_)) => true,
            },
{
    let gathered = (
        Seq::new(states.len(), |i: int| brought(states, events, i)),
        Seq::new(states.len(), |i: int| stored(states, events, i)),
    );
    assert forall|i: int| #![trigger events[i]] 0 <= i < events.len() implies {
        &&& gathered.0[i + 1] == gathered.0[i] + gain(states[i], events[i]).0
        &&& gathered.1[i + 1] == gathered.1[i] + gain(states[i], events[i]).1
    } by {
        if states[i] is StorePage {
            let page = states[i]->StorePage_page@;
            assert(page.map_values(|r: Record<EncryptedData>| r.id) =~= ids(page));
        }
    }
    let (host, tag, local, remote, page_size) = (
        states[0]->ReadLast_host,
        states[0]->ReadLast_tag,
        states[0]->ReadLast_local,
        states[0]->ReadLast_remote,
        states[0]->ReadLast_page_size,
    );
    assert forall|i: int| 0 <= i < states.len() implies match #[trigger] states[i] {
        SyncDownload::ReadLast { .. } => states[i] == states[0],
        SyncDownload::FetchPage { job, start, ids } => {
            &&& ids@ == gathered.0[i]
            &&& start == job.local + gathered.1[i]
            &&& job.host == states[0]->ReadLast_host
            &&& job.tag == states[0]->ReadLast_tag
            &&& job.page_size == states[0]->ReadLast_page_size
        },
        SyncDownload::ExpandBundles { ids, .. } => ids@ == gathered.0[i],
        SyncDownload::StorePage { ids, .. } => ids@ == gathered.0[i],
        SyncDownload::Done(Ok(ids)) => ids@ == gathered.0[i],
        SyncDownload::Done(Err(_)) => true,
    } by {
        law_download_starts_at_live_head(states, events, host, tag, local, remote, page_size, i);
    }
    gathered
}

/// A download never passes over a record that the local store lacks: where the head read is `h` and the
/// head known is `l`, every fetch that comes first starts at no more than the index behind the
/// further of the two, and at the first index where there is neither. So from a server that answers
/// with the records of consecutive indices, as far as its head, a download that succeeds has stored a
/// record of each index behind both heads, up to the remote head. Only the span of all indices, which
/// cannot be counted, is left out. Returned are the head that was read, with its place, and where the
/// record was stored.
pub proof fn law_download_leaves_nothing_out(
    states: Seq<SyncDownload>,
    events: Seq<SyncDownloadEvent>,
    host: HostId,
    tag: String,
    local: Option<RecordIdx>,
    remote: RecordIdx,
    page_size: u64,
    n: int,
    idx: int,
) -> (at: (int, Option<RecordIdx>, int, int))
    requires
        is_sync_download_run(states, events),
        states[0] == (SyncDownload::ReadLast { host, tag, local, remote, page_size }),
        forall|i: int|
            #![trigger events[i]]
            (0 <= i < events.len() && states[i] is FetchPage && events[i] is PageFetched
                && events[i]->PageFetched_0 is Ok) ==> {
                let (start, page) = (states[i]->FetchPage_start, events[i]->PageFetched_0->Ok_0@);
                &&& start <= remote ==> page.len() > 0
                &&& forall|k: int| 0 <= k < page.len() ==> (#[trigger] page[k]).idx == start + k
            },
        0 <= n < states.len(),
        states[n] matches SyncDownload::Done(Ok(_)),
        0 <= idx <= remote,
    ensures
        0 <= at.0 < n,
        states[at.0] is ReadLast,
        events[at.0] == SyncDownloadEvent::LastRead(Ok(at.1)),
        states[at.0 + 1] is FetchPage,
        states[at.0 + 1]->FetchPage_start == 0 || (at.1 matches Some(h)
            && states[at.0 + 1]->FetchPage_start <= h + 1) || (local matches Some(l)
            && states[at.0 + 1]->FetchPage_start <= l + 1),
        ({
            &&& at.1 matches Some(h) ==> h < idx
            &&& local matches Some(l) ==> l < idx
            &&& remote < u64::MAX || (at.1 matches Some(h) && h > 0) || (local matches Some(l) && l
                > 0)
        }) ==> {
            &&& 0 <= at.2 < n
            &&& states[at.2] is StorePage
            &&& events[at.2] matches SyncDownloadEvent::PageStored(Ok(_))
            &&& 0 <= at.3 < states[at.2]->StorePage_page@.len()
            &&& states[at.2]->StorePage_page@[at.3].idx == idx
        },
{
    assert(server_has_up_to(states, events, remote)) by {
        assert forall|i: int| #![trigger events[i]] 0 <= i < events.len() implies match (
            states[i],
            events[i],
        ) {
            (SyncDownload::FetchPage { start, .. }, SyncDownloadEvent::PageFetched(Ok(page))) => {
                &&& start <= remote ==> page@.len() > 0
                &&& follows(page@, start as int)
            },
            _ => true,
        } by {
            if states[i] is FetchPage && events[i] is PageFetched && events[i]->PageFetched_0 is Ok {
                let (start, page) = (states[i]->FetchPage_start, events[i]->PageFetched_0->Ok_0@);
                assert(start <= remote ==> page.len() > 0);
                assert(forall|k: int| 0 <= k < page.len() ==> (#[trigger] page[k]).idx == start + k);
            }
        }
    }
    let (i, head) = law_download_reaches_the_head(
        states,
        events,
        host,
        tag,
        local,
        remote,
        page_size,
        n,
    );
    let event = events[i];
    law_download_starts_at_live_head(states, events, host, tag, local, remote, page_size, i);
    assert(states[i] == states[0]);
    let from = states[i + 1]->FetchPage_start;
    if from <= idx && remote - from < u64::MAX {
        assert(has_stored(states, events, n, idx));
        let (m, k) = choose|m: int, k: int|
            0 <= m < n && #[trigger] stores_at(states, events, m, k, idx);
        (i, head, m, k)
    } else {
        (i, head, 0, 0)
    }
}

/// What is said of a sync that failed: what went wrong, and the message of whoever said so, as Rust
/// debugs a string.
pub proof fn law_sync_error_says_why(e: &SyncError, text: String)
    requires
        call_ensures(SyncError::message, (e,), text),
    ensures
        match *e {
            SyncError::LocalAheadOtherHost => text@
                == "the local store is ahead of the remote, but for another host. has remote lost data?"@,
            SyncError::LocalStoreError { msg } => text@
                == "an issue with the local database occurred: "@ + str_debug(msg@),
            SyncError::SyncLogicError { msg } => text@
                == "something has gone wrong with the sync logic: "@ + str_debug(msg@),
            SyncError::OperationalError { msg } => text@ == "operational error: "@ + str_debug(
                msg@,
            ),
            SyncError::RemoteRequestError { msg } => text@
                == "a request to the sync server failed: "@ + str_debug(msg@),
            SyncError::WrongKey => text@
                == "the encryption key on this machine does not match the data on the server. \
                this usually means a new machine was set up without copying the existing key. \
                to fix: run `atuin key` on a machine that already syncs correctly, then run \
                `atuin store rekey <key>` on this machine with the value from the other machine"@,
        },
{
}

} // verus!
