//! Downloading a packed run of history: from a manifest to the records in the local store.
//!
//! The reverse of [`crate::packfile::upload`]. [`download_packed`] and [`download_packed_many`]
//! decide what to do; whoever drives them reads and writes the store and talks to the server. A
//! state says what is to be done next, the event what came of it.

use vstd::prelude::*;

use crate::history::HISTORY_TAG;
use crate::packfile::batch::{batch_at, next_batch, Batch};
use crate::packfile::codec::{
    body_binding, is_out_of_memory, law_unpack_reverses_pack, manifest_ref_of, packs_to, unpack,
    unpacks_to, CodecError, PackManifestRef,
};
use crate::packfile::record::{manifest_body, LoadingError, PackManifest, PackManifestDataV1};
use crate::packfile::upload::{run_opens_as, run_packs_to, UploadPacked};
use crate::record::domain::{
    ids, record_ids, views, DecryptedData, EncryptedData, HostId, Record, RecordId, RecordIdx,
    RecordView,
};
use crate::record::encryption::{
    is_decryption_of, is_encryption_of, is_lawful, law_decrypt_reverses_encrypt, only_data_differs,
    Encryption,
};

verus! {

/// Most bundles that are downloaded at once.
pub const DOWNLOAD_CONCURRENCY: usize = 8;

/// Why the history of a bundle was not stored.
#[derive(Clone, Debug, PartialEq, Eq)]
pub enum DownloadError {
    /// The record is not a manifest.
    PackManifest(LoadingError),
    /// The server does not have the bundle, or could not be reached.
    Api(String),
    /// The bundle could not be unpacked.
    Unpack(CodecError),
    /// The local store could not be read or written.
    Store(String),
}

impl DownloadError {
    /// The message, as a value.
    pub open spec fn text(self) -> Seq<char> {
        match self {
            DownloadError::PackManifest(e) => "failed to load the packfile manifest: "@ + e.text(),
            DownloadError::Api(msg) => "bundle download failed: "@ + msg@,
            DownloadError::Unpack(e) => "failed to unpack the bundle: "@ + e.text(),
            DownloadError::Store(msg) => "failed to store the unpacked history: "@ + msg@,
        }
    }

    /// The message that says what went wrong.
    pub fn message(&self) -> (text: String)
        ensures
            text@ == self.text(),
    {
        match self {
            DownloadError::PackManifest(e) => "failed to load the packfile manifest: ".to_owned().concat(
                e.message().as_str(),
            ),
            DownloadError::Api(msg) => "bundle download failed: ".to_owned().concat(msg.as_str()),
            DownloadError::Unpack(e) => "failed to unpack the bundle: ".to_owned().concat(
                e.message().as_str(),
            ),
            DownloadError::Store(msg) => "failed to store the unpacked history: ".to_owned().concat(
                msg.as_str(),
            ),
        }
    }
}

/// What is to be done next for the history of one manifest.
#[derive(Debug)]
pub enum DownloadPacked {
    /// Parse the JSON `body` as a manifest.
    ParseManifest { manifest_ref: PackManifestRef, body: String },
    /// Read the index of the last record of `host` and `tag` in the local store.
    ReadHead {
        manifest_ref: PackManifestRef,
        host: HostId,
        tag: &'static str,
        range: PackManifestDataV1,
    },
    /// Read up to `count` records of `host` and `tag` from the local store, from `start` on: the
    /// run may already be there.
    ReadLocal {
        manifest_ref: PackManifestRef,
        host: HostId,
        tag: &'static str,
        start: RecordIdx,
        count: u64,
    },
    /// Ask the server for the address of the bundle of the manifest record with the id of
    /// `manifest_ref`.
    FetchUrl { manifest_ref: PackManifestRef },
    /// Fetch the body of the bundle from `url`.
    FetchBlob { manifest_ref: PackManifestRef, url: String },
    /// Add `records` to the local store. Their ids are `ids`.
    StoreHistory { records: Vec<Record<EncryptedData>>, ids: Vec<RecordId> },
    /// Nothing: the ids of the records that the manifest covers, all of them in the store, or why
    /// they are not.
    Done(Result<Vec<RecordId>, DownloadError>),
}

/// What came of a step of a download.
#[derive(Debug)]
pub enum DownloadEvent {
    /// The manifest was parsed.
    ManifestParsed(Result<PackManifestDataV1, String>),
    /// The head of the local history was read.
    HeadRead(Result<Option<RecordIdx>, String>),
    /// The run was read from the local store.
    LocalRead(Result<Vec<Record<EncryptedData>>, String>),
    /// The server gave the address of the bundle.
    UrlFetched(Result<String, String>),
    /// The body of the bundle was fetched.
    BlobFetched(Result<Vec<u8>, String>),
    /// The records were added to the store.
    HistoryStored(Result<(), String>),
}

/// The records `sealed` are the records `plain` with their data encrypted.
pub open spec fn run_seals_as<E: Encryption>(
    plain: Seq<RecordView<Seq<u8>>>,
    key: Seq<u8>,
    sealed: Seq<RecordView<(Seq<char>, Seq<char>)>>,
) -> bool {
    &&& sealed.len() == plain.len()
    &&& forall|i: int|
        0 <= i < plain.len() ==> is_encryption_of::<E>(#[trigger] sealed[i], plain[i], key)
}

/// Encrypts the records of a run.
pub fn encrypt_run<E: Encryption>(
    plain: Vec<Record<DecryptedData>>,
    key: &[u8; 32],
) -> (sealed: Vec<Record<EncryptedData>>)
    ensures
        run_seals_as::<E>(views(plain@), key@, views(sealed@)),
{
    let ghost all = views(plain@);
    let mut sealed: Vec<Record<EncryptedData>> = Vec::new();
    for record in iter: plain
        invariant
            iter.seq() == plain@,
            all == views(plain@),
            sealed@.len() == iter.index(),
            forall|i: int|
                0 <= i < sealed@.len() ==> is_encryption_of::<E>(
                    #[trigger] views(sealed@)[i],
                    all[i],
                    key@,
                ),
    {
        let ghost k = iter.index() as int;
        assert(record@ == all[k]);
        let ghost before = sealed@;
        sealed.push(record.encrypt::<E>(key));
        assert forall|i: int| 0 <= i < sealed@.len() implies is_encryption_of::<E>(
            #[trigger] views(sealed@)[i],
            all[i],
            key@,
        ) by {
            if i < k {
                assert(views(sealed@)[i] == views(before)[i]);
            }
        }
    }
    sealed
}

impl DownloadPacked {
    /// What a download starts with.
    pub open spec fn is_begin(self, manifest: Record<EncryptedData>) -> bool {
        match manifest_body(manifest.tag@, manifest.data.data@) {
            Ok(text) => {
                &&& self matches DownloadPacked::ParseManifest { manifest_ref, body }
                &&& manifest_ref == manifest_ref_of(manifest)
                &&& body@ == text
            },
            Err(why) => {
                &&& self matches DownloadPacked::Done(Err(DownloadError::PackManifest(e)))
                &&& e@ == why
            },
        }
    }

    /// Starts the download of the history that one manifest record covers.
    pub fn begin(manifest: &Record<EncryptedData>) -> (state: DownloadPacked)
        ensures
            state.is_begin(*manifest),
    {
        match PackManifest::body(manifest) {
            Ok(body) => DownloadPacked::ParseManifest {
                manifest_ref: PackManifestRef::from(manifest),
                body,
            },
            Err(e) => DownloadPacked::Done(Err(DownloadError::PackManifest(e))),
        }
    }
}

/// Whether the local history reaches to the end of the run, so that the whole run may be there.
pub open spec fn may_have_run(head: Option<RecordIdx>, range: PackManifestDataV1) -> bool {
    head matches Some(idx) && idx >= range.end_idx
}

/// The records are those of `count` indices from `start` on, without a gap.
pub open spec fn is_whole_run(
    run: Seq<Record<EncryptedData>>,
    start: RecordIdx,
    count: u64,
) -> bool {
    &&& run.len() == count
    &&& forall|i: int| 0 <= i < run.len() ==> (#[trigger] run[i]).idx == start + i
}

/// Whether the records are those of `count` indices from `start` on, without a gap.
pub fn is_whole(run: &Vec<Record<EncryptedData>>, start: RecordIdx, count: u64) -> (r: bool)
    ensures
        r == is_whole_run(run@, start, count),
{
    if run.len() as u64 != count {
        return false;
    }
    let mut i: usize = 0;
    while i < run.len()
        invariant
            i <= run@.len(),
            forall|j: int| 0 <= j < i ==> (#[trigger] run@[j]).idx == start + j,
        decreases run@.len() - i,
    {
        let idx: u64 = run[i].idx;
        if idx < start || idx - start != i as u64 {
            return false;
        }
        i = i + 1;
    }
    true
}

/// What came of the body of a bundle: records to be stored, encrypted again one by one, or why there
/// are none.
pub open spec fn blob_expands_to<E: Encryption>(
    blob: Seq<u8>,
    manifest_ref: PackManifestRef,
    key: Seq<u8>,
    after: DownloadPacked,
) -> bool {
    match after {
        DownloadPacked::StoreHistory { records, ids: stored } => {
            &&& stored@ == ids(records@)
            &&& exists|plain: Seq<RecordView<Seq<u8>>>| #[trigger]
                run_seals_as::<E>(plain, key, views(records@)) && unpacks_to::<E>(
                    blob,
                    body_binding(manifest_ref),
                    key,
                    Ok(plain),
                )
        },
        DownloadPacked::Done(Err(DownloadError::Unpack(e))) => unpacks_to::<E>(
            blob,
            body_binding(manifest_ref),
            key,
            Err(e),
        ),
        _ => false,
    }
}

/// How a download goes on: what `after` is, where `event` came of what `before` asked for. An event
/// that was not asked for changes nothing.
pub open spec fn download_step<E: Encryption>(
    before: DownloadPacked,
    event: DownloadEvent,
    key: Seq<u8>,
    after: DownloadPacked,
) -> bool {
    match (before, event) {
        (
            DownloadPacked::ParseManifest { manifest_ref, .. },
            DownloadEvent::ManifestParsed(Ok(range)),
        ) => after == (DownloadPacked::ReadHead {
            manifest_ref,
            host: manifest_ref.host,
            tag: HISTORY_TAG,
            range,
        }),
        (DownloadPacked::ParseManifest { .. }, DownloadEvent::ManifestParsed(Err(msg))) => after
            == DownloadPacked::Done(
            Err(DownloadError::PackManifest(LoadingError::MalformedBody(msg))),
        ),
        (
            DownloadPacked::ReadHead { manifest_ref, host, tag, range },
            DownloadEvent::HeadRead(Ok(head)),
        ) => if may_have_run(head, range) {
            after == (DownloadPacked::ReadLocal {
                manifest_ref,
                host,
                tag,
                start: range.start_idx,
                count: (range.end_idx - range.start_idx + 1) as u64,
            })
        } else {
            after == (DownloadPacked::FetchUrl { manifest_ref })
        },
        (DownloadPacked::ReadHead { .. }, DownloadEvent::HeadRead(Err(msg))) => after
            == DownloadPacked::Done(Err(DownloadError::Store(msg))),
        (
            DownloadPacked::ReadLocal { manifest_ref, start, count, .. },
            DownloadEvent::LocalRead(Ok(run)),
        ) => if is_whole_run(run@, start, count) {
            &&& after matches DownloadPacked::Done(Ok(covered))
            &&& covered@ == ids(run@)
        } else {
            after == (DownloadPacked::FetchUrl { manifest_ref })
        },
        (DownloadPacked::ReadLocal { .. }, DownloadEvent::LocalRead(Err(msg))) => after
            == DownloadPacked::Done(Err(DownloadError::Store(msg))),
        (DownloadPacked::FetchUrl { manifest_ref }, DownloadEvent::UrlFetched(Ok(url))) => after
            == (DownloadPacked::FetchBlob { manifest_ref, url }),
        (DownloadPacked::FetchUrl { .. }, DownloadEvent::UrlFetched(Err(msg))) => after
            == DownloadPacked::Done(Err(DownloadError::Api(msg))),
        (
            DownloadPacked::FetchBlob { manifest_ref, .. },
            DownloadEvent::BlobFetched(Ok(blob)),
        ) => blob_expands_to::<E>(blob@, manifest_ref, key, after),
        (DownloadPacked::FetchBlob { .. }, DownloadEvent::BlobFetched(Err(msg))) => after
            == DownloadPacked::Done(Err(DownloadError::Api(msg))),
        (
            DownloadPacked::StoreHistory { ids: stored, .. },
            DownloadEvent::HistoryStored(Ok(_)),
        ) => after == DownloadPacked::Done(Ok(stored)),
        (DownloadPacked::StoreHistory { .. }, DownloadEvent::HistoryStored(Err(msg))) => after
            == DownloadPacked::Done(Err(DownloadError::Store(msg))),
        _ => after == before,
    }
}

/// Where the run may be in the store, its length can be counted.
pub open spec fn can_count(before: DownloadPacked, event: DownloadEvent) -> bool {
    match (before, event) {
        (
            DownloadPacked::ReadHead { range, .. },
            DownloadEvent::HeadRead(Ok(head)),
        ) => may_have_run(head, range) ==> range.is_countable(),
        _ => true,
    }
}

/// Goes on with the download of the history of one manifest.
///
/// Where the whole run is already in the local store, nothing is fetched; the ids of its records are
/// returned all the same, for whoever indexes what a sync brought. Where the store reaches past the
/// run but a record of it is missing, the run is fetched.
pub fn download_packed<E: Encryption>(
    state: DownloadPacked,
    event: DownloadEvent,
    key: &[u8; 32],
) -> (next: DownloadPacked)
    requires
        can_count(state, event),
    ensures
        download_step::<E>(state, event, key@, next),
{
    match (state, event) {
        (
            DownloadPacked::ParseManifest { manifest_ref, .. },
            DownloadEvent::ManifestParsed(parsed),
        ) => {
            match PackManifest::from_body(parsed) {
                Ok(PackManifest::V1(range)) => DownloadPacked::ReadHead {
                    manifest_ref,
                    host: manifest_ref.host,
                    tag: HISTORY_TAG,
                    range,
                },
                Err(e) => DownloadPacked::Done(Err(DownloadError::PackManifest(e))),
            }
        },
        (
            DownloadPacked::ReadHead { manifest_ref, host, tag, range },
            DownloadEvent::HeadRead(read),
        ) => {
            match read {
                Ok(Some(idx)) if idx >= range.end_idx => DownloadPacked::ReadLocal {
                    manifest_ref,
                    host,
                    tag,
                    start: range.start_idx,
                    count: range.count(),
                },
                Ok(_) => DownloadPacked::FetchUrl { manifest_ref },
                Err(msg) => DownloadPacked::Done(Err(DownloadError::Store(msg))),
            }
        },
        (
            DownloadPacked::ReadLocal { manifest_ref, start, count, .. },
            DownloadEvent::LocalRead(read),
        ) => {
            match read {
                Ok(run) => if is_whole(&run, start, count) {
                    DownloadPacked::Done(Ok(record_ids(&run)))
                } else {
                    DownloadPacked::FetchUrl { manifest_ref }
                },
                Err(msg) => DownloadPacked::Done(Err(DownloadError::Store(msg))),
            }
        },
        (DownloadPacked::FetchUrl { manifest_ref }, DownloadEvent::UrlFetched(fetched)) => {
            match fetched {
                Ok(url) => DownloadPacked::FetchBlob { manifest_ref, url },
                Err(msg) => DownloadPacked::Done(Err(DownloadError::Api(msg))),
            }
        },
        (DownloadPacked::FetchBlob { manifest_ref, .. }, DownloadEvent::BlobFetched(fetched)) => {
            match fetched {
                Ok(blob) => expand_blob::<E>(blob, &manifest_ref, key),
                Err(msg) => DownloadPacked::Done(Err(DownloadError::Api(msg))),
            }
        },
        (DownloadPacked::StoreHistory { ids: stored, .. }, DownloadEvent::HistoryStored(done)) => {
            match done {
                Ok(_) => DownloadPacked::Done(Ok(stored)),
                Err(msg) => DownloadPacked::Done(Err(DownloadError::Store(msg))),
            }
        },
        (state, _) => state,
    }
}

/// Unpacks the body of a bundle into records for the local store.
fn expand_blob<E: Encryption>(
    blob: Vec<u8>,
    manifest_ref: &PackManifestRef,
    key: &[u8; 32],
) -> (next: DownloadPacked)
    ensures
        blob_expands_to::<E>(blob@, *manifest_ref, key@, next),
{
    let unpacked = unpack::<E>(blob.as_slice(), manifest_ref, key);
    let next = store_unpacked::<E>(unpacked, key);
    proof {
        if unpacked is Ok {
            let (plain, records) = (views(unpacked->Ok_0@), next->StoreHistory_records);
            assert(run_seals_as::<E>(plain, key@, views(records@)));
        }
    }
    next
}

/// Asks for the records that came of unpacking a bundle to be stored, encrypted again.
pub fn store_unpacked<E: Encryption>(
    unpacked: Result<Vec<Record<DecryptedData>>, CodecError>,
    key: &[u8; 32],
) -> (next: DownloadPacked)
    ensures
        match unpacked {
            Ok(plain) => {
                &&& next matches DownloadPacked::StoreHistory { records, ids: stored }
                &&& run_seals_as::<E>(views(plain@), key@, views(records@))
                &&& stored@ == ids(records@)
            },
            Err(e) => next == DownloadPacked::Done(Err(DownloadError::Unpack(e))),
        },
{
    match unpacked {
        Ok(plain) => {
            let records = encrypt_run::<E>(plain, key);
            let stored = record_ids(&records);
            DownloadPacked::StoreHistory { records, ids: stored }
        },
        Err(e) => DownloadPacked::Done(Err(DownloadError::Unpack(e))),
    }
}

/// The states that a download goes through, and the events between them.
pub open spec fn is_download_run<E: Encryption>(
    states: Seq<DownloadPacked>,
    events: Seq<DownloadEvent>,
    key: Seq<u8>,
) -> bool {
    &&& states.len() == events.len() + 1
    &&& forall|i: int|
        #![trigger events[i]]
        0 <= i < events.len() ==> can_count(states[i], events[i]) && download_step::<E>(
            states[i],
            events[i],
            key,
            states[i + 1],
        )
}

/// How far a download has got.
pub open spec fn stage(state: DownloadPacked) -> int {
    match state {
        DownloadPacked::ParseManifest { .. } => 0,
        DownloadPacked::ReadHead { .. } => 1,
        DownloadPacked::ReadLocal { .. } => 2,
        DownloadPacked::FetchUrl { .. } => 3,
        DownloadPacked::FetchBlob { .. } => 4,
        DownloadPacked::StoreHistory { .. } => 5,
        DownloadPacked::Done(_) => 6,
    }
}

proof fn lemma_download_stages<E: Encryption>(
    states: Seq<DownloadPacked>,
    events: Seq<DownloadEvent>,
    key: Seq<u8>,
    i: int,
    n: int,
)
    requires
        is_download_run::<E>(states, events, key),
        0 <= i <= n < states.len(),
    ensures
        stage(states[i]) <= stage(states[n]),
        states[i] is Done ==> states[n] == states[i],
    decreases n - i,
{
    if i < n {
        lemma_download_stages::<E>(states, events, key, i, n - 1);
        let event = events[n - 1];
    }
}

/// At `i` the whole run was found in the local store.
pub open spec fn found_local_at(
    states: Seq<DownloadPacked>,
    events: Seq<DownloadEvent>,
    i: int,
    run: Vec<Record<EncryptedData>>,
) -> bool {
    &&& states[i] matches DownloadPacked::ReadLocal { start, count, .. }
    &&& events[i] == DownloadEvent::LocalRead(Ok(run))
    &&& is_whole_run(run@, start, count)
}

/// Where the whole run is already in the local store, the server is not asked for anything, and the ids
/// of the run are returned.
pub proof fn law_local_run_needs_no_network<E: Encryption>(
    states: Seq<DownloadPacked>,
    events: Seq<DownloadEvent>,
    key: Seq<u8>,
    run: Vec<Record<EncryptedData>>,
    i: int,
    n: int,
)
    requires
        is_download_run::<E>(states, events, key),
        0 <= i < events.len(),
        0 <= n < states.len(),
        found_local_at(states, events, i, run),
    ensures
        !(states[n] is FetchUrl || states[n] is FetchBlob),
        n > i ==> (states[n] matches DownloadPacked::Done(Ok(covered)) && covered@ == ids(run@)),
{
    let event = events[i];
    if n <= i {
        lemma_download_stages::<E>(states, events, key, n, i);
    } else {
        lemma_download_stages::<E>(states, events, key, i + 1, n);
    }
}

/// What a store answers that holds the run of the manifest, and more or nothing after it.
pub open spec fn store_holds(
    states: Seq<DownloadPacked>,
    events: Seq<DownloadEvent>,
    range: PackManifestDataV1,
    run: Vec<Record<EncryptedData>>,
) -> bool {
    &&& range.is_countable()
    &&& is_whole_run(run@, range.start_idx, (range.end_idx - range.start_idx + 1) as u64)
    &&& forall|i: int|
        #![trigger events[i]]
        0 <= i < events.len() ==> match (states[i], events[i]) {
            (DownloadPacked::ParseManifest { .. }, DownloadEvent::ManifestParsed(parsed)) => {
                parsed == Ok::<PackManifestDataV1, String>(range)
            },
            (DownloadPacked::ReadHead { .. }, DownloadEvent::HeadRead(read)) => {
                read matches Ok(head) && may_have_run(head, range)
            },
            (DownloadPacked::ReadLocal { .. }, DownloadEvent::LocalRead(read)) => {
                read == Ok::<Vec<Record<EncryptedData>>, String>(run)
            },
            _ => true,
        }
}

/// A repeated download returns the same ids without a request. Where a download has returned ids, and
/// the store holds the records with those ids as the run, downloading again asks the server for
/// nothing, stores nothing, and can end only with those ids.
pub proof fn law_repeated_download_returns_the_same<E: Encryption>(
    first: DownloadPacked,
    states: Seq<DownloadPacked>,
    events: Seq<DownloadEvent>,
    key: Seq<u8>,
    manifest: Record<EncryptedData>,
    range: PackManifestDataV1,
    run: Vec<Record<EncryptedData>>,
    n: int,
)
    requires
        first matches DownloadPacked::Done(Ok(covered)) && covered@ == ids(run@),
        is_download_run::<E>(states, events, key),
        states[0].is_begin(manifest),
        manifest_body(manifest.tag@, manifest.data.data@) is Ok,
        store_holds(states, events, range, run),
        0 <= n < states.len(),
    ensures
        match states[n] {
            DownloadPacked::ParseManifest { .. } => true,
            DownloadPacked::ReadHead { range: r, .. } => r == range,
            DownloadPacked::ReadLocal { start, count, .. } => start == range.start_idx && count
                == range.end_idx - range.start_idx + 1,
            DownloadPacked::Done(Ok(covered)) => covered@ == first->Done_0->Ok_0@,
            _ => false,
        },
    decreases n,
{
    if n > 0 {
        let event = events[n - 1];
        law_repeated_download_returns_the_same::<E>(
            first,
            states,
            events,
            key,
            manifest,
            range,
            run,
            n - 1,
        );
    }
}

proof fn lemma_download_manifest<E: Encryption>(
    states: Seq<DownloadPacked>,
    events: Seq<DownloadEvent>,
    key: Seq<u8>,
    manifest: Record<EncryptedData>,
    n: int,
)
    requires
        is_download_run::<E>(states, events, key),
        states[0].is_begin(manifest),
        0 <= n < states.len(),
    ensures
        match states[n] {
            DownloadPacked::ParseManifest { manifest_ref, .. } => manifest_ref == manifest_ref_of(
                manifest,
            ),
            DownloadPacked::ReadHead { manifest_ref, host, tag, .. } => {
                &&& manifest_ref == manifest_ref_of(manifest)
                &&& host == manifest.host.id
                &&& tag == HISTORY_TAG
            },
            DownloadPacked::ReadLocal { manifest_ref, host, tag, .. } => {
                &&& manifest_ref == manifest_ref_of(manifest)
                &&& host == manifest.host.id
                &&& tag == HISTORY_TAG
            },
            DownloadPacked::FetchUrl { manifest_ref } => manifest_ref == manifest_ref_of(manifest),
            DownloadPacked::FetchBlob { manifest_ref, .. } => manifest_ref == manifest_ref_of(
                manifest,
            ),
            _ => true,
        },
    decreases n,
{
    if n > 0 {
        let event = events[n - 1];
        lemma_download_manifest::<E>(states, events, key, manifest, n - 1);
    }
}

/// Where the ids that a download returns come from.
pub ghost enum Covered {
    /// At `read`, the run was read from the local store.
    Local { read: int, run: Vec<Record<EncryptedData>> },
    /// At `fetched`, the body of the bundle came in; at `stored`, its records went into the store.
    Bundle { fetched: int, blob: Vec<u8>, stored: int },
}

proof fn lemma_download_expanded<E: Encryption>(
    states: Seq<DownloadPacked>,
    events: Seq<DownloadEvent>,
    key: Seq<u8>,
    manifest: Record<EncryptedData>,
    n: int,
) -> (at: (int, Vec<u8>))
    requires
        is_download_run::<E>(states, events, key),
        states[0].is_begin(manifest),
        0 <= n < states.len(),
        states[n] is StoreHistory,
    ensures
        0 <= at.0 < n,
        states[at.0] is FetchBlob,
        events[at.0] == DownloadEvent::BlobFetched(Ok(at.1)),
        blob_expands_to::<E>(at.1@, manifest_ref_of(manifest), key, states[n]),
    decreases n,
{
    if n == 0 {
        arbitrary()
    } else {
        let event = events[n - 1];
        lemma_download_manifest::<E>(states, events, key, manifest, n - 1);
        if states[n - 1] is StoreHistory {
            lemma_download_expanded::<E>(states, events, key, manifest, n - 1)
        } else {
            (n - 1, event->BlobFetched_0->Ok_0)
        }
    }
}

/// A download that succeeds returns the ids of the run in the local store, where the whole of it was
/// there already; or else those of the records that the bundle of the manifest unpacked to, and these
/// have been added to the store.
pub proof fn law_finished_download<E: Encryption>(
    states: Seq<DownloadPacked>,
    events: Seq<DownloadEvent>,
    key: Seq<u8>,
    manifest: Record<EncryptedData>,
    n: int,
) -> (from: Covered)
    requires
        is_download_run::<E>(states, events, key),
        states[0].is_begin(manifest),
        0 <= n < states.len(),
        states[n] matches DownloadPacked::Done(Ok(_)),
    ensures
        match from {
            Covered::Local { read, run } => {
                &&& 0 <= read < n
                &&& found_local_at(states, events, read, run)
                &&& states[n]->Done_0->Ok_0@ == ids(run@)
            },
            Covered::Bundle { fetched, blob, stored } => {
                &&& 0 <= fetched < stored < n
                &&& states[fetched] is FetchBlob
                &&& events[fetched] == DownloadEvent::BlobFetched(Ok(blob))
                &&& blob_expands_to::<E>(blob@, manifest_ref_of(manifest), key, states[stored])
                &&& states[stored] matches DownloadPacked::StoreHistory { ids: covered, .. }
                    && states[n]->Done_0->Ok_0 == covered
                &&& events[stored] matches DownloadEvent::HistoryStored(Ok(_))
            },
        },
    decreases n,
{
    if n == 0 {
        arbitrary()
    } else {
        let event = events[n - 1];
        match states[n - 1] {
            DownloadPacked::Done(_) => {
                law_finished_download::<E>(states, events, key, manifest, n - 1)
            },
            DownloadPacked::ReadLocal { .. } => {
                Covered::Local { read: n - 1, run: event->LocalRead_0->Ok_0 }
            },
            _ => {
                let (fetched, blob) = lemma_download_expanded::<E>(
                    states,
                    events,
                    key,
                    manifest,
                    n - 1,
                );
                Covered::Bundle { fetched, blob, stored: n - 1 }
            },
        }
    }
}

/// There was no memory to decompress a bundle.
pub open spec fn ran_out_of_memory(state: DownloadPacked) -> bool {
    state matches DownloadPacked::Done(Err(DownloadError::Unpack(e))) && is_out_of_memory(e)
}

/// What was uploaded comes back. With a lawful cipher, where the body of a bundle is what was packed
/// for the manifest from a run of history, the records that a download stores are those of the run:
/// the same ids, in their order, and each the same record but for how its data is encrypted, which
/// opens to the plaintext that it had. Left out is only an answer that the decompressor ran out of
/// memory.
pub proof fn law_download_restores_upload<E: Encryption>(
    run: Seq<Record<EncryptedData>>,
    manifest_ref: PackManifestRef,
    key: Seq<u8>,
    uploaded: UploadPacked,
    after: DownloadPacked,
)
    requires
        is_lawful::<E>(),
        uploaded is CreateBundle,
        run_packs_to::<E>(run, manifest_ref, key, uploaded),
        blob_expands_to::<E>(uploaded->CreateBundle_blob@, manifest_ref, key, after),
        !ran_out_of_memory(after),
    ensures
        match after {
            DownloadPacked::StoreHistory { records, ids: stored } => {
                &&& stored@ == ids(run)
                &&& ids(records@) == ids(run)
                &&& forall|i: int|
                    0 <= i < run.len() ==> only_data_differs(run[i]@, #[trigger] records@[i]@)
                &&& exists|plain: Seq<RecordView<Seq<u8>>>| #[trigger]
                    run_opens_as::<E>(views(run), key, plain) && forall|
                        i: int,
                        opened: Result<RecordView<Seq<u8>>, Seq<char>>,
                    |
                        0 <= i < run.len() && #[trigger] is_decryption_of::<E>(
                            opened,
                            records@[i]@,
                            key,
                        ) ==> opened == Ok::<RecordView<Seq<u8>>, Seq<char>>(plain[i])
            },
            _ => false,
        },
{
    let ad = body_binding(manifest_ref);
    let blob = uploaded->CreateBundle_blob@;
    let packed = choose|plain: Seq<RecordView<Seq<u8>>>| #[trigger]
        run_opens_as::<E>(views(run), key, plain) && packs_to::<E>(plain, ad, key, Ok(blob));
    match after {
        DownloadPacked::StoreHistory { records, ids: stored } => {
            let plain = choose|plain: Seq<RecordView<Seq<u8>>>| #[trigger]
                run_seals_as::<E>(plain, key, views(records@)) && unpacks_to::<E>(
                    blob,
                    ad,
                    key,
                    Ok(plain),
                );
            law_unpack_reverses_pack::<E>(blob, packed, manifest_ref, key, Ok(plain));
            assert(plain == packed);
            assert forall|i: int| 0 <= i < run.len() implies only_data_differs(
                run[i]@,
                #[trigger] records@[i]@,
            ) && records@[i].id == run[i].id by {
                assert(views(run)[i] == run[i]@);
                assert(views(records@)[i] == records@[i]@);
                assert(is_decryption_of::<E>(Ok(plain[i]), views(run)[i], key));
                assert(is_encryption_of::<E>(views(records@)[i], plain[i], key));
            }
            assert(views(records@).len() == records@.len() && views(run).len() == run.len());
            assert forall|i: int| 0 <= i < run.len() implies #[trigger] ids(records@)[i] == ids(
                run,
            )[i] by {
                assert(only_data_differs(run[i]@, records@[i]@));
            }
            assert(ids(records@) =~= ids(run));
            assert forall|i: int, opened: Result<RecordView<Seq<u8>>, Seq<char>>|
                0 <= i < run.len() && #[trigger] is_decryption_of::<E>(
                    opened,
                    records@[i]@,
                    key,
                ) implies opened == Ok::<RecordView<Seq<u8>>, Seq<char>>(plain[i]) by {
                assert(views(records@)[i] == records@[i]@);
                law_decrypt_reverses_encrypt::<E>(plain[i], records@[i]@, opened, key);
            }
            assert(run_opens_as::<E>(views(run), key, plain));
        },
        DownloadPacked::Done(Err(DownloadError::Unpack(e))) => {
            law_unpack_reverses_pack::<E>(blob, packed, manifest_ref, key, Err(e));
        },
        _ => {},
    }
}

/// A download of a run that the local history does not reach to the end of, from a server that has the
/// bundle that was uploaded for the manifest, returns the ids of the run, all of them in its order,
/// after their records have been added to the store. With `gap`, the same holds where the local
/// history reaches past the run but a record of it is missing. Left out is only an answer that the
/// decompressor ran out of memory.
pub proof fn law_download_yields_the_run<E: Encryption>(
    states: Seq<DownloadPacked>,
    events: Seq<DownloadEvent>,
    key: Seq<u8>,
    manifest: Record<EncryptedData>,
    range: PackManifestDataV1,
    uploaded: UploadPacked,
    run: Seq<Record<EncryptedData>>,
    gap: bool,
)
    requires
        is_lawful::<E>(),
        uploaded is CreateBundle,
        run_packs_to::<E>(run, manifest_ref_of(manifest), key, uploaded),
        is_download_run::<E>(states, events, key),
        states[0].is_begin(manifest),
        manifest_body(manifest.tag@, manifest.data.data@) is Ok,
        events.len() == if gap {
            6nat
        } else {
            5nat
        },
        events[0] == DownloadEvent::ManifestParsed(Ok(range)),
        events[1] matches DownloadEvent::HeadRead(Ok(head)) && may_have_run(head, range) == gap,
        gap ==> (events[2] matches DownloadEvent::LocalRead(Ok(local)) && !is_whole_run(
            local@,
            range.start_idx,
            (range.end_idx - range.start_idx + 1) as u64,
        )),
        events[events.len() - 3] matches DownloadEvent::UrlFetched(Ok(_)),
        events[events.len() - 2] == DownloadEvent::BlobFetched(Ok(uploaded->CreateBundle_blob)),
        events[events.len() - 1] matches DownloadEvent::HistoryStored(Ok(_)),
        !ran_out_of_memory(states[states.len() - 2]),
    ensures
        states[states.len() - 2] matches DownloadPacked::StoreHistory { records, .. } && ids(
            records@,
        ) == ids(run),
        states[states.len() - 1] matches DownloadPacked::Done(Ok(covered)) && covered@ == ids(run),
{
    let m = events.len() as int;
    assert(download_step::<E>(states[0], events[0], key, states[1]));
    assert(can_count(states[1], events[1]) && download_step::<E>(
        states[1],
        events[1],
        key,
        states[2],
    ));
    if gap {
        assert(download_step::<E>(states[2], events[2], key, states[3]));
    }
    assert(states[m - 3] == (DownloadPacked::FetchUrl { manifest_ref: manifest_ref_of(manifest) }));
    assert(download_step::<E>(states[m - 3], events[m - 3], key, states[m - 2]));
    assert(download_step::<E>(states[m - 2], events[m - 2], key, states[m - 1]));
    law_download_restores_upload::<E>(
        run,
        manifest_ref_of(manifest),
        key,
        uploaded,
        states[m - 1],
    );
    assert(download_step::<E>(states[m - 1], events[m - 1], key, states[m]));
}

/// The ids in lists, one list after the other.
pub open spec fn joined(lists: Seq<Vec<RecordId>>) -> Seq<RecordId>
    decreases lists.len(),
{
    if lists.len() == 0 {
        Seq::empty()
    } else {
        joined(lists.drop_last()) + lists.last()@
    }
}

proof fn lemma_joined_add(a: Seq<Vec<RecordId>>, b: Seq<Vec<RecordId>>)
    ensures
        joined(a + b) == joined(a) + joined(b),
    decreases b.len(),
{
    if b.len() == 0 {
        assert(a + b =~= a);
        assert(joined(a) + joined(b) =~= joined(a));
    } else {
        lemma_joined_add(a, b.drop_last());
        assert((a + b).drop_last() =~= a + b.drop_last());
        assert(joined(a + b) =~= joined(a) + joined(b));
    }
}

/// What is to be done next for the history of many manifests.
#[derive(Debug)]
pub enum DownloadMany {
    /// Download the history of the manifests in `batch`, of `total` in all, at once.
    Batch { batch: Batch, total: usize, ids: Vec<RecordId> },
    /// Nothing: the ids of the records that the manifests cover, in the order of the manifests, or
    /// the first failure.
    Done(Result<Vec<RecordId>, DownloadError>),
}

impl DownloadMany {
    /// What follows when the history of the manifests before `from` is downloaded.
    pub open spec fn is_at(self, from: nat, total: usize, done: Seq<RecordId>) -> bool {
        match batch_at(from, total as nat, DOWNLOAD_CONCURRENCY as nat) {
            Some(next) => {
                &&& self matches DownloadMany::Batch { batch, total: all, ids: covered }
                &&& batch == next
                &&& all == total
                &&& covered@ == done
            },
            None => self matches DownloadMany::Done(Ok(all)) && all@ == done,
        }
    }

    /// Starts the download of the history of `total` manifests.
    pub fn begin(total: usize) -> (state: DownloadMany)
        ensures
            state.is_at(0, total, Seq::empty()),
    {
        DownloadMany::at(0, total, Vec::new())
    }

    fn at(from: usize, total: usize, ids: Vec<RecordId>) -> (state: DownloadMany)
        ensures
            state.is_at(from as nat, total, ids@),
    {
        match next_batch(from, total, DOWNLOAD_CONCURRENCY) {
            Some(batch) => DownloadMany::Batch { batch, total, ids },
            None => DownloadMany::Done(Ok(ids)),
        }
    }
}

/// How the downloads go on: `expanded` are the ids that the manifests of a batch cover, a list for
/// each of them in their order, or the first failure among them, which ends the whole.
pub open spec fn download_many_step(
    before: DownloadMany,
    expanded: Result<Vec<Vec<RecordId>>, DownloadError>,
    after: DownloadMany,
) -> bool {
    match (before, expanded) {
        (DownloadMany::Batch { batch, total, ids: covered }, Ok(lists)) => after.is_at(
            batch.to as nat,
            total,
            covered@ + joined(lists@),
        ),
        (DownloadMany::Batch { .. }, Err(e)) => after == DownloadMany::Done(Err(e)),
        (DownloadMany::Done(_), _) => after == before,
    }
}

/// Goes on with the download of the history of many manifests, batch by batch.
pub fn download_packed_many(
    state: DownloadMany,
    expanded: Result<Vec<Vec<RecordId>>, DownloadError>,
) -> (next: DownloadMany)
    ensures
        download_many_step(state, expanded, next),
{
    match state {
        DownloadMany::Batch { batch, total, ids: covered } => {
            match expanded {
                Ok(lists) => {
                    let mut all = covered;
                    for list in iter: lists
                        invariant
                            iter.seq() == lists@,
                            all@ == covered@ + joined(lists@.take(iter.index() as int)),
                    {
                        let ghost before = all@;
                        let ghost k = iter.index() as int;
                        let mut new = list;
                        all.append(&mut new);
                        assert(lists@.take(k + 1).drop_last() =~= lists@.take(k));
                        assert(all@ =~= covered@ + joined(lists@.take(k + 1)));
                    }
                    assert(lists@.take(lists@.len() as int) =~= lists@);
                    DownloadMany::at(batch.to, total, all)
                },
                Err(e) => DownloadMany::Done(Err(e)),
            }
        },
        done => done,
    }
}

/// The states that the downloads go through, and what came of the batches between them.
pub open spec fn is_download_many_run(
    states: Seq<DownloadMany>,
    expanded: Seq<Result<Vec<Vec<RecordId>>, DownloadError>>,
) -> bool {
    &&& states.len() == expanded.len() + 1
    &&& forall|i: int|
        #![trigger expanded[i]]
        0 <= i < expanded.len() ==> download_many_step(states[i], expanded[i], states[i + 1])
}

/// The replies of the batches are those of a list with the ids that each manifest covers.
pub open spec fn lists_are(
    states: Seq<DownloadMany>,
    expanded: Seq<Result<Vec<Vec<RecordId>>, DownloadError>>,
    lists: Seq<Vec<RecordId>>,
) -> bool {
    forall|i: int|
        #![trigger expanded[i]]
        0 <= i < expanded.len() ==> match (states[i], expanded[i]) {
            (DownloadMany::Batch { batch, .. }, Ok(some)) => some@ == lists.subrange(
                batch.from as int,
                batch.to as int,
            ),
            _ => true,
        }
}

/// The manifests are worked through in their order, in batches that are as large as they may be, and
/// the ids that are returned are those that the manifests cover, in the order of the manifests.
pub proof fn law_covered_ids_in_order(
    states: Seq<DownloadMany>,
    expanded: Seq<Result<Vec<Vec<RecordId>>, DownloadError>>,
    total: usize,
    lists: Seq<Vec<RecordId>>,
    n: int,
)
    requires
        is_download_many_run(states, expanded),
        states[0].is_at(0, total, Seq::empty()),
        lists.len() == total,
        lists_are(states, expanded, lists),
        0 <= n < states.len(),
    ensures
        match states[n] {
            DownloadMany::Batch { batch, total: all, ids: done } => {
                &&& all == total
                &&& batch.is_chunk(total as nat, DOWNLOAD_CONCURRENCY as nat)
                &&& done@ == joined(lists.take(batch.from as int))
            },
            DownloadMany::Done(Ok(all)) => all@ == joined(lists),
            DownloadMany::Done(Err(e)) => exists|i: int|
                0 <= i < n && states[i] is Batch && #[trigger] expanded[i] == Err::<
                    Vec<Vec<RecordId>>,
                    DownloadError,
                >(e),
        },
    decreases n,
{
    if n == 0 {
        assert(lists.take(0) =~= Seq::<Vec<RecordId>>::empty());
        if total == 0 {
            assert(lists =~= Seq::<Vec<RecordId>>::empty());
        }
    } else {
        law_covered_ids_in_order(states, expanded, total, lists, n - 1);
        let reply = expanded[n - 1];
        match states[n - 1] {
            DownloadMany::Batch { batch, ids: done, .. } => {
                let (a, b) = (
                    lists.take(batch.from as int),
                    lists.subrange(batch.from as int, batch.to as int),
                );
                assert(a + b =~= lists.take(batch.to as int));
                lemma_joined_add(a, b);
                if batch.to == total {
                    assert(lists.take(batch.to as int) =~= lists);
                }
            },
            _ => {},
        }
    }
}

} // verus!
