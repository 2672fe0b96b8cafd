//! Uploading a packed run of history: from a manifest to the bundle on the server.
//!
//! [`upload_packed`] and [`upload_packed_many`] decide what to do; whoever drives them reads the
//! store and talks to the server. A state says what is to be done next, the event what came of it.

use vstd::prelude::*;

use crate::history::HISTORY_TAG;
use crate::packfile::batch::{batch_at, next_batch, Batch};
use crate::packfile::codec::{
    body_binding, is_out_of_memory, law_unpack_reverses_pack, manifest_ref_of, pack, packs_to,
    unpacks_to, CodecError, PackManifestRef,
};
use crate::packfile::record::{manifest_body, LoadingError, PackManifest, PackManifestDataV1};
use crate::record::domain::{
    ids, record_ids, views, DecryptedData, EncryptedData, HostId, Record, RecordId, RecordIdx,
    RecordView,
};
use crate::record::encryption::{is_decryption_of, is_lawful, Encryption};

verus! {

/// Why a bundle was not uploaded.
#[derive(Clone, Debug, PartialEq, Eq)]
pub enum UploadError {
    /// The record is not a manifest.
    PackManifest(LoadingError),
    /// The run of history could not be read from the store.
    Store(String),
    /// A history record does not open.
    Decrypt(String),
    /// The records could not be packed.
    Pack(CodecError),
    /// The server refused the bundle, or could not be reached.
    Api(String),
}

impl UploadError {
    /// The message, as a value.
    pub open spec fn text(self) -> Seq<char> {
        match self {
            UploadError::PackManifest(e) => "failed to load the packfile manifest: "@ + e.text(),
            UploadError::Store(msg) => "failed to read the history range from the store: "@ + msg@,
            UploadError::Decrypt(msg) => "failed to decrypt a history record: "@ + msg@,
            UploadError::Pack(e) => "failed to pack the bundle: "@ + e.text(),
            UploadError::Api(msg) => "bundle upload failed: "@ + msg@,
        }
    }

    /// The message that says what went wrong.
    pub fn message(&self) -> (text: String)
        ensures
            text@ == self.text(),
    {
        match self {
            UploadError::PackManifest(e) => "failed to load the packfile manifest: ".to_owned().concat(
                e.message().as_str(),
            ),
            UploadError::Store(msg) => "failed to read the history range from the store: ".to_owned().concat(
                msg.as_str(),
            ),
            UploadError::Decrypt(msg) => "failed to decrypt a history record: ".to_owned().concat(
                msg.as_str(),
            ),
            UploadError::Pack(e) => "failed to pack the bundle: ".to_owned().concat(
                e.message().as_str(),
            ),
            UploadError::Api(msg) => "bundle upload failed: ".to_owned().concat(msg.as_str()),
        }
    }
}

/// What is to be done next for the bundle of one manifest.
#[derive(Debug)]
pub enum UploadPacked {
    /// Parse the JSON `body` as a manifest.
    ParseManifest { manifest_ref: PackManifestRef, body: String },
    /// Read up to `count` records of `host` and `tag` from the local store, from `start` on.
    ReadRun {
        manifest_ref: PackManifestRef,
        host: HostId,
        tag: &'static str,
        start: RecordIdx,
        count: u64,
    },
    /// Ask the server for a bundle of the records `ids` with a body of the length of `blob`.
    CreateBundle { ids: Vec<RecordId>, blob: Vec<u8> },
    /// Send `blob` to the address that the server gave.
    PutPackfile { url: String, blob: Vec<u8>, bundle_id: RecordId },
    /// Nothing: the bundle is on the server under this id, or the upload failed.
    Done(Result<RecordId, UploadError>),
}

/// What came of a step of an upload.
#[derive(Debug)]
pub enum UploadEvent {
    /// The manifest was parsed.
    ManifestParsed(Result<PackManifestDataV1, String>),
    /// The run was read.
    RunRead(Result<Vec<Record<EncryptedData>>, String>),
    /// The server made a bundle: the address to send its body to, and its id.
    BundleCreated(Result<(String, RecordId), String>),
    /// The body was sent.
    PackfilePut(Result<(), String>),
}

/// The records of a run all open, to these.
pub open spec fn run_opens_as<E: Encryption>(
    run: Seq<RecordView<(Seq<char>, Seq<char>)>>,
    key: Seq<u8>,
    plain: Seq<RecordView<Seq<u8>>>,
) -> bool {
    &&& plain.len() == run.len()
    &&& forall|i: int|
        0 <= i < run.len() ==> is_decryption_of::<E>(Ok(#[trigger] plain[i]), run[i], key)
}

/// A record of the run does not open, and those before it do.
pub open spec fn run_refuses<E: Encryption>(
    run: Seq<RecordView<(Seq<char>, Seq<char>)>>,
    key: Seq<u8>,
    msg: Seq<char>,
) -> bool {
    exists|k: int| #[trigger] is_first_refusal::<E>(run, key, k, msg)
}

/// The record at `k` is the first that does not open.
pub open spec fn is_first_refusal<E: Encryption>(
    run: Seq<RecordView<(Seq<char>, Seq<char>)>>,
    key: Seq<u8>,
    k: int,
    msg: Seq<char>,
) -> bool {
    &&& 0 <= k < run.len()
    &&& is_decryption_of::<E>(Err(msg), run[k], key)
    &&& forall|i: int| 0 <= i < k ==> opens::<E>(#[trigger] run[i], key)
}

/// The cipher may open the record.
pub open spec fn opens<E: Encryption>(
    record: RecordView<(Seq<char>, Seq<char>)>,
    key: Seq<u8>,
) -> bool {
    exists|plain: RecordView<Seq<u8>>| #[trigger] is_decryption_of::<E>(Ok(plain), record, key)
}

/// Opens the records of a run one after the other, up to the first that does not open.
pub fn decrypt_run<E: Encryption>(run: Vec<Record<EncryptedData>>, key: &[u8; 32]) -> (res: Result<
    Vec<Record<DecryptedData>>,
    String,
>)
    ensures
        match res {
            Ok(plain) => run_opens_as::<E>(views(run@), key@, views(plain@)),
            Err(msg) => run_refuses::<E>(views(run@), key@, msg@),
        },
{
    let ghost all = views(run@);
    let mut plain: Vec<Record<DecryptedData>> = Vec::new();
    for record in iter: run
        invariant
            iter.seq() == run@,
            all == views(run@),
            plain@.len() == iter.index(),
            forall|i: int|
                0 <= i < plain@.len() ==> is_decryption_of::<E>(
                    Ok(#[trigger] views(plain@)[i]),
                    all[i],
                    key@,
                ),
    {
        let ghost k = iter.index() as int;
        assert(record@ == all[k]);
        let ghost before = plain@;
        match record.decrypt::<E>(key) {
            Ok(opened) => {
                plain.push(opened);
                assert forall|i: int| 0 <= i < plain@.len() implies is_decryption_of::<E>(
                    Ok(#[trigger] views(plain@)[i]),
                    all[i],
                    key@,
                ) by {
                    if i < k {
                        assert(views(plain@)[i] == views(before)[i]);
                    }
                }
            },
            Err(msg) => {
                assert forall|i: int| 0 <= i < k implies opens::<E>(#[trigger] all[i], key@) by {
                    assert(is_decryption_of::<E>(Ok(views(plain@)[i]), all[i], key@));
                }
                assert(is_first_refusal::<E>(all, key@, k, msg@));
                return Err(msg);
            },
        }
    }
    Ok(plain)
}

impl UploadPacked {
    /// What an upload starts with.
    pub open spec fn is_begin(self, manifest: Record<EncryptedData>) -> bool {
        match manifest_body(manifest.tag@, manifest.data.data@) {
            Ok(text) => {
                &&& self matches UploadPacked::ParseManifest { manifest_ref, body }
                &&& manifest_ref == manifest_ref_of(manifest)
                &&& body@ == text
            },
            Err(why) => {
                &&& self matches UploadPacked::Done(Err(UploadError::PackManifest(e)))
                &&& e@ == why
            },
        }
    }

    /// Starts the upload of the bundle of one manifest record.
    pub fn begin(manifest: &Record<EncryptedData>) -> (state: UploadPacked)
        ensures
            state.is_begin(*manifest),
    {
        match PackManifest::body(manifest) {
            Ok(body) => UploadPacked::ParseManifest {
                manifest_ref: PackManifestRef::from(manifest),
                body,
            },
            Err(e) => UploadPacked::Done(Err(UploadError::PackManifest(e))),
        }
    }
}

/// What came of the run: a bundle of its records to be made, sealed for its manifest, or why there is
/// none.
pub open spec fn run_packs_to<E: Encryption>(
    run: Seq<Record<EncryptedData>>,
    manifest_ref: PackManifestRef,
    key: Seq<u8>,
    after: UploadPacked,
) -> bool {
    match after {
        UploadPacked::CreateBundle { ids: bundled, blob } => {
            &&& bundled@ == ids(run)
            &&& exists|plain: Seq<RecordView<Seq<u8>>>| #[trigger]
                run_opens_as::<E>(views(run), key, plain) && packs_to::<E>(
                    plain,
                    body_binding(manifest_ref),
                    key,
                    Ok(blob@),
                )
        },
        UploadPacked::Done(Err(UploadError::Decrypt(msg))) => run_refuses::<E>(
            views(run),
            key,
            msg@,
        ),
        UploadPacked::Done(Err(UploadError::Pack(e))) => exists|plain: Seq<RecordView<Seq<u8>>>|
            #[trigger] run_opens_as::<E>(views(run), key, plain) && packs_to::<E>(
                plain,
                body_binding(manifest_ref),
                key,
                Err(e),
            ),
        _ => false,
    }
}

/// How an upload goes on: what `after` is, where `event` came of what `before` asked for. An event
/// that was not asked for changes nothing.
pub open spec fn upload_step<E: Encryption>(
    before: UploadPacked,
    event: UploadEvent,
    key: Seq<u8>,
    after: UploadPacked,
) -> bool {
    match (before, event) {
        (
            UploadPacked::ParseManifest { manifest_ref, .. },
            UploadEvent::ManifestParsed(Ok(range)),
        ) => after == (UploadPacked::ReadRun {
            manifest_ref,
            host: manifest_ref.host,
            tag: HISTORY_TAG,
            start: range.start_idx,
            count: (range.end_idx - range.start_idx + 1) as u64,
        }),
        (UploadPacked::ParseManifest { .. }, UploadEvent::ManifestParsed(Err(msg))) => after
            == UploadPacked::Done(Err(UploadError::PackManifest(LoadingError::MalformedBody(msg)))),
        (
            UploadPacked::ReadRun { manifest_ref, .. },
            UploadEvent::RunRead(Ok(run)),
        ) => run_packs_to::<E>(run@, manifest_ref, key, after),
        (UploadPacked::ReadRun { .. }, UploadEvent::RunRead(Err(msg))) => after
            == UploadPacked::Done(Err(UploadError::Store(msg))),
        (
            UploadPacked::CreateBundle { blob, .. },
            UploadEvent::BundleCreated(Ok((url, bundle_id))),
        ) => after == (UploadPacked::PutPackfile { url, blob, bundle_id }),
        (UploadPacked::CreateBundle { .. }, UploadEvent::BundleCreated(Err(msg))) => after
            == UploadPacked::Done(Err(UploadError::Api(msg))),
        (UploadPacked::PutPackfile { bundle_id, .. }, UploadEvent::PackfilePut(Ok(_))) => after
            == UploadPacked::Done(Ok(bundle_id)),
        (UploadPacked::PutPackfile { .. }, UploadEvent::PackfilePut(Err(msg))) => after
            == UploadPacked::Done(Err(UploadError::Api(msg))),
        _ => after == before,
    }
}

/// The length of the run that the manifest names can be counted.
pub open spec fn can_count(before: UploadPacked, event: UploadEvent) -> bool {
    match (before, event) {
        (
            UploadPacked::ParseManifest { .. },
            UploadEvent::ManifestParsed(Ok(range)),
        ) => range.is_countable(),
        _ => true,
    }
}

/// Goes on with the upload of one bundle.
///
/// The records of the run must already be on the server, which bundles only what it knows; so this
/// runs after the loose records of the run have been uploaded.
pub fn upload_packed<E: Encryption>(
    state: UploadPacked,
    event: UploadEvent,
    key: &[u8; 32],
) -> (next: UploadPacked)
    requires
        can_count(state, event),
    ensures
        upload_step::<E>(state, event, key@, next),
{
    match (state, event) {
        (UploadPacked::ParseManifest { manifest_ref, .. }, UploadEvent::ManifestParsed(parsed)) => {
            match PackManifest::from_body(parsed) {
                Ok(PackManifest::V1(range)) => UploadPacked::ReadRun {
                    manifest_ref,
                    host: manifest_ref.host,
                    tag: HISTORY_TAG,
                    start: range.start_idx,
                    count: range.count(),
                },
                Err(e) => UploadPacked::Done(Err(UploadError::PackManifest(e))),
            }
        },
        (UploadPacked::ReadRun { manifest_ref, .. }, UploadEvent::RunRead(read)) => {
            match read {
                Ok(run) => bundle_run::<E>(run, &manifest_ref, key),
                Err(msg) => UploadPacked::Done(Err(UploadError::Store(msg))),
            }
        },
        (UploadPacked::CreateBundle { blob, .. }, UploadEvent::BundleCreated(created)) => {
            match created {
                Ok((url, bundle_id)) => UploadPacked::PutPackfile { url, blob, bundle_id },
                Err(msg) => UploadPacked::Done(Err(UploadError::Api(msg))),
            }
        },
        (UploadPacked::PutPackfile { bundle_id, .. }, UploadEvent::PackfilePut(put)) => {
            match put {
                Ok(_) => UploadPacked::Done(Ok(bundle_id)),
                Err(msg) => UploadPacked::Done(Err(UploadError::Api(msg))),
            }
        },
        (state, _) => state,
    }
}

/// Packs a run of history for its manifest.
fn bundle_run<E: Encryption>(
    run: Vec<Record<EncryptedData>>,
    manifest_ref: &PackManifestRef,
    key: &[u8; 32],
) -> (next: UploadPacked)
    ensures
        run_packs_to::<E>(run@, *manifest_ref, key@, next),
{
    let bundled = record_ids(&run);
    match decrypt_run::<E>(run, key) {
        Ok(plain) => {
            assert(run_opens_as::<E>(views(run@), key@, views(plain@)));
            bundle_packed(bundled, pack::<E>(plain.as_slice(), manifest_ref, key))
        },
        Err(msg) => UploadPacked::Done(Err(UploadError::Decrypt(msg))),
    }
}

/// Asks for a bundle of the records `ids` with the body that came of packing them.
pub fn bundle_packed(
    ids: Vec<RecordId>,
    packed: Result<Vec<u8>, CodecError>,
) -> (next: UploadPacked)
    ensures
        next == match packed {
            Ok(blob) => UploadPacked::CreateBundle { ids, blob },
            Err(e) => UploadPacked::Done(Err(UploadError::Pack(e))),
        },
{
    match packed {
        Ok(blob) => UploadPacked::CreateBundle { ids, blob },
        Err(e) => UploadPacked::Done(Err(UploadError::Pack(e))),
    }
}

/// The states that an upload goes through, and the events between them.
pub open spec fn is_upload_run<E: Encryption>(
    states: Seq<UploadPacked>,
    events: Seq<UploadEvent>,
    key: Seq<u8>,
) -> bool {
    &&& states.len() == events.len() + 1
    &&& forall|i: int|
        #![trigger events[i]]
        0 <= i < events.len() ==> can_count(states[i], events[i]) && upload_step::<E>(
            states[i],
            events[i],
            key,
            states[i + 1],
        )
}

/// At `i` the manifest was parsed.
pub open spec fn parsed_at(
    states: Seq<UploadPacked>,
    events: Seq<UploadEvent>,
    i: int,
    range: PackManifestDataV1,
) -> bool {
    states[i] is ParseManifest && events[i] == UploadEvent::ManifestParsed(Ok(range))
}

/// At `i` the run was read.
pub open spec fn run_read_at(
    states: Seq<UploadPacked>,
    events: Seq<UploadEvent>,
    i: int,
    run: Vec<Record<EncryptedData>>,
) -> bool {
    states[i] is ReadRun && events[i] == UploadEvent::RunRead(Ok(run))
}

/// At `i` the server made the bundle.
pub open spec fn created_at(
    states: Seq<UploadPacked>,
    events: Seq<UploadEvent>,
    i: int,
    url: String,
    bundle_id: RecordId,
) -> bool {
    states[i] is CreateBundle && events[i] == UploadEvent::BundleCreated(Ok((url, bundle_id)))
}

/// At `i` the body was sent.
pub open spec fn put_at(states: Seq<UploadPacked>, events: Seq<UploadEvent>, i: int) -> bool {
    states[i] is PutPackfile && events[i] matches UploadEvent::PackfilePut(Ok(_))
}

proof fn lemma_upload_parsed<E: Encryption>(
    states: Seq<UploadPacked>,
    events: Seq<UploadEvent>,
    key: Seq<u8>,
    manifest: Record<EncryptedData>,
    n: int,
) -> (at: (int, PackManifestDataV1))
    requires
        is_upload_run::<E>(states, events, key),
        states[0].is_begin(manifest),
        0 <= n < states.len(),
        states[n] is ReadRun || states[n] is ParseManifest,
    ensures
        states[n] matches UploadPacked::ParseManifest { manifest_ref, .. } ==> manifest_ref
            == manifest_ref_of(manifest),
        states[n] is ReadRun ==> {
            &&& 0 <= at.0 < n
            &&& parsed_at(states, events, at.0, at.1)
            &&& at.1.is_countable()
            &&& states[n] == (UploadPacked::ReadRun {
                manifest_ref: manifest_ref_of(manifest),
                host: manifest.host.id,
                tag: HISTORY_TAG,
                start: at.1.start_idx,
                count: (at.1.end_idx - at.1.start_idx + 1) as u64,
            })
        },
    decreases n,
{
    if n == 0 {
        (0, arbitrary())
    } else {
        let event = events[n - 1];
        let w = lemma_upload_parsed::<E>(states, events, key, manifest, n - 1);
        if states[n - 1] is ParseManifest && states[n] is ReadRun {
            (n - 1, event->ManifestParsed_0->Ok_0)
        } else {
            w
        }
    }
}

proof fn lemma_upload_created<E: Encryption>(
    states: Seq<UploadPacked>,
    events: Seq<UploadEvent>,
    key: Seq<u8>,
    manifest: Record<EncryptedData>,
    n: int,
) -> (at: (int, Vec<Record<EncryptedData>>))
    requires
        is_upload_run::<E>(states, events, key),
        states[0].is_begin(manifest),
        0 <= n < states.len(),
        states[n] is CreateBundle,
    ensures
        0 <= at.0 < n,
        run_read_at(states, events, at.0, at.1),
        run_packs_to::<E>(at.1@, manifest_ref_of(manifest), key, states[n]),
    decreases n,
{
    if n == 0 {
        (0, arbitrary())
    } else {
        let event = events[n - 1];
        if states[n - 1] is CreateBundle {
            lemma_upload_created::<E>(states, events, key, manifest, n - 1)
        } else {
            lemma_upload_parsed::<E>(states, events, key, manifest, n - 1);
            (n - 1, event->RunRead_0->Ok_0)
        }
    }
}

proof fn lemma_upload_put<E: Encryption>(
    states: Seq<UploadPacked>,
    events: Seq<UploadEvent>,
    key: Seq<u8>,
    manifest: Record<EncryptedData>,
    n: int,
) -> (at: int)
    requires
        is_upload_run::<E>(states, events, key),
        states[0].is_begin(manifest),
        0 <= n < states.len(),
        states[n] is PutPackfile,
    ensures
        0 <= at < n,
        states[n] matches UploadPacked::PutPackfile { url, blob, bundle_id } && created_at(
            states,
            events,
            at,
            url,
            bundle_id,
        ) && states[at]->CreateBundle_blob == blob,
    decreases n,
{
    if n == 0 {
        0
    } else {
        let event = events[n - 1];
        if states[n - 1] is PutPackfile {
            lemma_upload_put::<E>(states, events, key, manifest, n - 1)
        } else {
            n - 1
        }
    }
}

/// The places of an upload at which the steps of it succeeded, and with what.
pub ghost struct FinishedUpload {
    pub parsed: int,
    pub range: PackManifestDataV1,
    pub read: int,
    pub run: Vec<Record<EncryptedData>>,
    pub created: int,
    pub url: String,
    pub put: int,
}

/// An upload that succeeds has, in this order: parsed the manifest; read the run of history that it
/// names; had the server make a bundle of exactly the records of that run, and got from it the id
/// that is returned; and sent the records of the run, packed for this manifest, to the address that
/// the server gave.
pub proof fn law_finished_upload<E: Encryption>(
    states: Seq<UploadPacked>,
    events: Seq<UploadEvent>,
    key: Seq<u8>,
    manifest: Record<EncryptedData>,
    n: int,
) -> (at: FinishedUpload)
    requires
        is_upload_run::<E>(states, events, key),
        states[0].is_begin(manifest),
        0 <= n < states.len(),
        states[n] matches UploadPacked::Done(Ok(_)),
    ensures
        0 <= at.parsed < at.read < at.created < at.put < n,
        parsed_at(states, events, at.parsed, at.range),
        run_read_at(states, events, at.read, at.run),
        states[at.read] == (UploadPacked::ReadRun {
            manifest_ref: manifest_ref_of(manifest),
            host: manifest.host.id,
            tag: HISTORY_TAG,
            start: at.range.start_idx,
            count: (at.range.end_idx - at.range.start_idx + 1) as u64,
        }),
        created_at(states, events, at.created, at.url, states[n]->Done_0->Ok_0),
        run_packs_to::<E>(at.run@, manifest_ref_of(manifest), key, states[at.created]),
        put_at(states, events, at.put),
        states[at.put] == (UploadPacked::PutPackfile {
            url: at.url,
            blob: states[at.created]->CreateBundle_blob,
            bundle_id: states[n]->Done_0->Ok_0,
        }),
    decreases n,
{
    if n == 0 {
        arbitrary()
    } else {
        let event = events[n - 1];
        if states[n - 1] is Done {
            law_finished_upload::<E>(states, events, key, manifest, n - 1)
        } else {
            let put = n - 1;
            let created = lemma_upload_put::<E>(states, events, key, manifest, put);
            let (read, run) = lemma_upload_created::<E>(states, events, key, manifest, created);
            let (parsed, range) = lemma_upload_parsed::<E>(states, events, key, manifest, read);
            FinishedUpload { parsed, range, read, run, created, url: states[put]->url, put }
        }
    }
}

/// The records of a run, or the envelope that they are sealed in, do not fit a packfile, or there was
/// no memory to compress them.
pub open spec fn is_at_a_limit(state: UploadPacked) -> bool {
    state matches UploadPacked::Done(Err(UploadError::Pack(e))) && (e is TooLarge
        || is_out_of_memory(e))
}

/// An upload of a run whose records all open yields the id of the bundle that the server made, after one
/// request for a bundle of exactly the records of the run and one for its body. Left out is only a
/// run that is too large for a packfile or for the machine's memory.
pub proof fn law_upload_yields_the_bundle_id<E: Encryption>(
    states: Seq<UploadPacked>,
    events: Seq<UploadEvent>,
    key: Seq<u8>,
    manifest: Record<EncryptedData>,
    range: PackManifestDataV1,
    run: Vec<Record<EncryptedData>>,
    url: String,
    bundle_id: RecordId,
)
    requires
        is_upload_run::<E>(states, events, key),
        states[0].is_begin(manifest),
        manifest_body(manifest.tag@, manifest.data.data@) is Ok,
        events.len() == 4,
        events[0] == UploadEvent::ManifestParsed(Ok(range)),
        events[1] == UploadEvent::RunRead(Ok(run)),
        events[2] == UploadEvent::BundleCreated(Ok((url, bundle_id))),
        events[3] == UploadEvent::PackfilePut(Ok(())),
        forall|msg: Seq<char>| !#[trigger] run_refuses::<E>(views(run@), key, msg),
        !is_at_a_limit(states[2]),
    ensures
        states[1] == (UploadPacked::ReadRun {
            manifest_ref: manifest_ref_of(manifest),
            host: manifest.host.id,
            tag: HISTORY_TAG,
            start: range.start_idx,
            count: (range.end_idx - range.start_idx + 1) as u64,
        }),
        states[2] is CreateBundle,
        states[2]->CreateBundle_ids@ == ids(run@),
        states[3] == (UploadPacked::PutPackfile {
            url,
            blob: states[2]->CreateBundle_blob,
            bundle_id,
        }),
        states[4] == UploadPacked::Done(Ok(bundle_id)),
{
    assert(upload_step::<E>(states[0], events[0], key, states[1]));
    assert(upload_step::<E>(states[1], events[1], key, states[2]));
    assert(run_packs_to::<E>(run@, manifest_ref_of(manifest), key, states[2]));
    assert(upload_step::<E>(states[2], events[2], key, states[3]));
    assert(upload_step::<E>(states[3], events[3], key, states[4]));
}

/// With a lawful cipher, the body that an upload sends unpacks, under the manifest's identity, to the
/// records of the run as they open. Left out is only an answer that the decompressor ran out of
/// memory.
pub proof fn law_sent_body_unpacks_to_the_run<E: Encryption>(
    run: Seq<Record<EncryptedData>>,
    manifest_ref: PackManifestRef,
    key: Seq<u8>,
    uploaded: UploadPacked,
    res: Result<Seq<RecordView<Seq<u8>>>, CodecError>,
)
    requires
        is_lawful::<E>(),
        uploaded is CreateBundle,
        run_packs_to::<E>(run, manifest_ref, key, uploaded),
        unpacks_to::<E>(uploaded->CreateBundle_blob@, body_binding(manifest_ref), key, res),
        !(res is Err && is_out_of_memory(res->Err_0)),
    ensures
        res is Ok,
        run_opens_as::<E>(views(run), key, res->Ok_0),
{
    let blob = uploaded->CreateBundle_blob@;
    let packed = choose|plain: Seq<RecordView<Seq<u8>>>| #[trigger]
        run_opens_as::<E>(views(run), key, plain) && packs_to::<E>(
            plain,
            body_binding(manifest_ref),
            key,
            Ok(blob),
        );
    law_unpack_reverses_pack::<E>(blob, packed, manifest_ref, key, res);
}

/// Most bundles that are uploaded at once.
pub const UPLOAD_CONCURRENCY: usize = 8;

/// What is to be done next for the bundles of many manifests.
#[derive(Debug)]
pub enum UploadMany {
    /// Upload the bundles of the manifests in `batch`, of `total` in all, at once.
    Batch { batch: Batch, total: usize, bundle_ids: Vec<RecordId> },
    /// Nothing: the ids of the bundles, in the order of the manifests, or the first failure.
    Done(Result<Vec<RecordId>, UploadError>),
}

impl UploadMany {
    /// What follows when the bundles of the manifests before `from` are uploaded.
    pub open spec fn is_at(self, from: nat, total: usize, done: Seq<RecordId>) -> bool {
        match batch_at(from, total as nat, UPLOAD_CONCURRENCY as nat) {
            Some(next) => {
                &&& self matches UploadMany::Batch { batch, total: all, bundle_ids }
                &&& batch == next
                &&& all == total
                &&& bundle_ids@ == done
            },
            None => self matches UploadMany::Done(Ok(all)) && all@ == done,
        }
    }

    /// Starts the upload of the bundles of `total` manifests.
    pub fn begin(total: usize) -> (state: UploadMany)
        ensures
            state.is_at(0, total, Seq::empty()),
    {
        UploadMany::at(0, total, Vec::new())
    }

    fn at(from: usize, total: usize, bundle_ids: Vec<RecordId>) -> (state: UploadMany)
        ensures
            state.is_at(from as nat, total, bundle_ids@),
    {
        match next_batch(from, total, UPLOAD_CONCURRENCY) {
            Some(batch) => UploadMany::Batch { batch, total, bundle_ids },
            None => UploadMany::Done(Ok(bundle_ids)),
        }
    }
}

/// How the uploads go on: `shipped` are the ids of the bundles of a batch in the order of its
/// manifests, or the first failure among them, which ends the whole.
pub open spec fn upload_many_step(
    before: UploadMany,
    shipped: Result<Vec<RecordId>, UploadError>,
    after: UploadMany,
) -> bool {
    match (before, shipped) {
        (UploadMany::Batch { batch, total, bundle_ids }, Ok(ids)) => after.is_at(
            batch.to as nat,
            total,
            bundle_ids@ + ids@,
        ),
        (UploadMany::Batch { .. }, Err(e)) => after == UploadMany::Done(Err(e)),
        (UploadMany::Done(_), _) => after == before,
    }
}

/// Goes on with the upload of many bundles, batch by batch.
pub fn upload_packed_many(
    state: UploadMany,
    shipped: Result<Vec<RecordId>, UploadError>,
) -> (next: UploadMany)
    ensures
        upload_many_step(state, shipped, next),
{
    match state {
        UploadMany::Batch { batch, total, bundle_ids } => {
            match shipped {
                Ok(ids) => {
                    let mut all = bundle_ids;
                    let mut new = ids;
                    all.append(&mut new);
                    UploadMany::at(batch.to, total, all)
                },
                Err(e) => UploadMany::Done(Err(e)),
            }
        },
        done => done,
    }
}

/// The states that the uploads go through, and what came of the batches between them.
pub open spec fn is_upload_many_run(
    states: Seq<UploadMany>,
    shipped: Seq<Result<Vec<RecordId>, UploadError>>,
) -> bool {
    &&& states.len() == shipped.len() + 1
    &&& forall|i: int|
        #![trigger shipped[i]]
        0 <= i < shipped.len() ==> upload_many_step(states[i], shipped[i], states[i + 1])
}

/// The replies of the batches are those of a list with one id for each manifest.
pub open spec fn replies_are(
    states: Seq<UploadMany>,
    shipped: Seq<Result<Vec<RecordId>, UploadError>>,
    bundle_ids: Seq<RecordId>,
) -> bool {
    forall|i: int|
        #![trigger shipped[i]]
        0 <= i < shipped.len() ==> match (states[i], shipped[i]) {
            (UploadMany::Batch { batch, .. }, Ok(ids)) => ids@ == bundle_ids.subrange(
                batch.from as int,
                batch.to as int,
            ),
            _ => true,
        }
}

/// The manifests are worked through in their order, in batches that are as large as they may be, and
/// the ids that are returned are those of all the bundles, in the order of the manifests.
pub proof fn law_bundle_ids_in_order(
    states: Seq<UploadMany>,
    shipped: Seq<Result<Vec<RecordId>, UploadError>>,
    total: usize,
    bundle_ids: Seq<RecordId>,
    n: int,
)
    requires
        is_upload_many_run(states, shipped),
        states[0].is_at(0, total, Seq::empty()),
        bundle_ids.len() == total,
        replies_are(states, shipped, bundle_ids),
        0 <= n < states.len(),
    ensures
        match states[n] {
            UploadMany::Batch { batch, total: all, bundle_ids: done } => {
                &&& all == total
                &&& batch.is_chunk(total as nat, UPLOAD_CONCURRENCY as nat)
                &&& done@ == bundle_ids.take(batch.from as int)
            },
            UploadMany::Done(Ok(ids)) => ids@ == bundle_ids,
            UploadMany::Done(Err(e)) => exists|i: int|
                0 <= i < n && states[i] is Batch && #[trigger] shipped[i] == Err::<
                    Vec<RecordId>,
                    UploadError,
                >(e),
        },
    decreases n,
{
    if n == 0 {
        assert(bundle_ids.take(0) =~= Seq::<RecordId>::empty());
        if total == 0 {
            assert(bundle_ids =~= Seq::<RecordId>::empty());
        }
    } else {
        law_bundle_ids_in_order(states, shipped, total, bundle_ids, n - 1);
        let reply = shipped[n - 1];
        match states[n - 1] {
            UploadMany::Batch { batch, bundle_ids: done, .. } => {
                assert(bundle_ids.take(batch.from as int) + bundle_ids.subrange(
                    batch.from as int,
                    batch.to as int,
                ) =~= bundle_ids.take(batch.to as int));
                if batch.to == total {
                    assert(bundle_ids.take(batch.to as int) =~= bundle_ids);
                }
            },
            _ => {},
        }
    }
}

} // verus!
