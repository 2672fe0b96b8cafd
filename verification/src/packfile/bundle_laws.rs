//! What holds of every bundle that is uploaded or downloaded, said of what is asked for and what comes
//! of it.

use vstd::prelude::*;

use crate::packfile::codec::{
    body_binding, packs_to, unpacks_to, CodecError, PackManifestRef,
};
use crate::packfile::download::{
    blob_expands_to, download_packed, download_step, encrypt_run, is_whole, run_seals_as,
    store_unpacked, DownloadError, DownloadEvent, DownloadPacked,
};
use crate::packfile::laws::{lemma_packs_as, lemma_unpacks_as, packs_as, unpacks_as};
use crate::packfile::record::{
    manifest_body, LoadingError, LoadingView, PackManifestDataV1, PACKFILE_TAG,
};
use crate::packfile::upload::{
    bundle_packed, decrypt_run, is_first_refusal, opens, run_opens_as, run_packs_to, run_refuses,
    upload_packed, upload_step, UploadError, UploadEvent, UploadPacked,
};
use crate::record::domain::{
    views, AdditionalData, DecryptedData, EncryptedData, Record, RecordId, RecordIdx, RecordView,
};
use crate::record::encryption::{
    decrypts_to, is_decryption_of, is_encryption_of, only_data_differs, record_binding, Encryption,
};

verus! {

/// The cipher, asked to open the data of this record with this key, answers so.
pub open spec fn cipher_opens<E: Encryption>(
    record: Record<EncryptedData>,
    key: Seq<u8>,
    opened: Result<DecryptedData, String>,
) -> bool {
    exists|e: EncryptedData, a: AdditionalData<'_>, k: &[u8; 32]| #[trigger]
        call_ensures(E::decrypt, (e, a, k), opened) && e.data@ == record.data.data@
            && e.content_encryption_key@ == record.data.content_encryption_key@ && *a.id
            == record.id && *a.idx == record.idx && a.version@ == record.version@ && a.tag@
            == record.tag@ && *a.host == record.host.id && k@ == key
}

/// The cipher, asked to seal the data of a record with these values and this key, gives the data of
/// the record.
pub open spec fn cipher_seals<E: Encryption>(
    plain: RecordView<Seq<u8>>,
    key: Seq<u8>,
    sealed: Record<EncryptedData>,
) -> bool {
    exists|d: DecryptedData, a: AdditionalData<'_>, k: &[u8; 32], e: EncryptedData| #[trigger]
        call_ensures(E::encrypt, (d, a, k), e) && d.0@ == plain.data && *a.id == plain.id && *a.idx
            == plain.idx && a.version@ == plain.version && a.tag@ == plain.tag && *a.host
            == plain.host && k@ == key && sealed.data.data@ == e.data@
            && sealed.data.content_encryption_key@ == e.content_encryption_key@
}

/// The record has these values, whatever its data.
pub open spec fn has_values<A, B>(record: Record<A>, values: RecordView<B>) -> bool {
    &&& record.id == values.id
    &&& record.idx == values.idx
    &&& record.host.id == values.host
    &&& record.host.name@ == values.host_name
    &&& record.timestamp == values.timestamp
    &&& record.version@ == values.version
    &&& record.tag@ == values.tag
}

/// The cipher opened the data of the record, and these are its values.
pub open spec fn is_opened<E: Encryption>(
    record: Record<EncryptedData>,
    key: Seq<u8>,
    plain: RecordView<Seq<u8>>,
) -> bool {
    has_values(record, plain) && exists|data: DecryptedData| #[trigger]
        cipher_opens::<E>(record, key, Ok(data)) && data.0@ == plain.data
}

proof fn lemma_asked<E: Encryption>(
    record: Record<EncryptedData>,
    key: Seq<u8>,
    after: Result<RecordView<Seq<u8>>, Seq<char>>,
) -> (opened: Result<DecryptedData, String>)
    requires
        is_decryption_of::<E>(after, record@, key),
    ensures
        cipher_opens::<E>(record, key, opened),
        match (opened, after) {
            (Ok(data), Ok(plain)) => has_values(record, plain) && plain.data == data.0@,
            (Err(text), Err(msg)) => msg == text@,
            _ => false,
        },
{
    let opened = choose|opened: Result<DecryptedData, String>| #[trigger]
        decrypts_to::<E>(record@.data, record_binding(record@), key, opened) && match (
            opened,
            after,
        ) {
            (Ok(data), Ok(plain)) => only_data_differs(record@, plain) && plain.data == data@,
            (Err(e), Err(msg)) => msg == e@,
            _ => false,
        };
    let (e, a, k) = choose|e: EncryptedData, a: AdditionalData<'static>, k: &'static [u8; 32]|
        #[trigger] call_ensures(E::decrypt, (e, a, k), opened) && e@ == record@.data && a@
            == record_binding(record@) && k@ == key;
    assert(call_ensures(E::decrypt, (e, a, k), opened));
    opened
}

proof fn lemma_opened<E: Encryption>(
    run: Seq<Record<EncryptedData>>,
    key: Seq<u8>,
    plain: Seq<RecordView<Seq<u8>>>,
)
    requires
        run_opens_as::<E>(views(run), key, plain),
    ensures
        plain.len() == run.len(),
        forall|i: int| 0 <= i < run.len() ==> is_opened::<E>(run[i], key, #[trigger] plain[i]),
{
    assert forall|i: int| 0 <= i < run.len() implies is_opened::<E>(
        run[i],
        key,
        #[trigger] plain[i],
    ) by {
        assert(views(run)[i] == run[i]@);
        assert(is_decryption_of::<E>(Ok(plain[i]), views(run)[i], key));
        let opened = lemma_asked::<E>(run[i], key, Ok(plain[i]));
        assert(cipher_opens::<E>(run[i], key, Ok(opened->Ok_0)));
    }
}

/// The cipher may open the data of this record with this key.
pub open spec fn may_open<E: Encryption>(record: Record<EncryptedData>, key: Seq<u8>) -> bool {
    exists|data: DecryptedData| #[trigger] cipher_opens::<E>(record, key, Ok(data))
}

/// The first record of the run that the cipher does not open is the one at `k`, and this is what it
/// says of it.
pub open spec fn is_refused_at<E: Encryption>(
    run: Seq<Record<EncryptedData>>,
    key: Seq<u8>,
    k: int,
    text: Seq<char>,
) -> bool {
    &&& 0 <= k < run.len()
    &&& exists|said: String| #[trigger]
        cipher_opens::<E>(run[k], key, Err(said)) && said@ == text
    &&& forall|i: int|
        0 <= i < k ==> may_open::<E>(#[trigger] run[i], key)
}

proof fn lemma_refused<E: Encryption>(
    run: Seq<Record<EncryptedData>>,
    key: Seq<u8>,
    text: Seq<char>,
) -> (k: int)
    requires
        run_refuses::<E>(views(run), key, text),
    ensures
        is_refused_at::<E>(run, key, k, text),
{
    let k = choose|k: int| #[trigger] is_first_refusal::<E>(views(run), key, k, text);
    assert(views(run)[k] == run[k]@);
    let opened = lemma_asked::<E>(run[k], key, Err(text));
    assert(cipher_opens::<E>(run[k], key, Err(opened->Err_0)));
    assert forall|i: int| 0 <= i < k implies may_open::<E>(#[trigger] run[i], key) by {
        assert(opens::<E>(views(run)[i], key));
        assert(views(run)[i] == run[i]@);
        let plain = choose|plain: RecordView<Seq<u8>>| #[trigger]
            is_decryption_of::<E>(Ok(plain), run[i]@, key);
        let opened = lemma_asked::<E>(run[i], key, Ok(plain));
        assert(cipher_opens::<E>(run[i], key, Ok(opened->Ok_0)));
    }
    k
}

/// A run that is decrypted keeps its records, in their order and with every field but the data, which
/// is what the cipher made of it; it fails as the cipher does on the first record that does not open.
/// The values, or the place of that record, are returned.
pub proof fn law_run_is_decrypted_record_by_record<E: Encryption>(
    run: Vec<Record<EncryptedData>>,
    key: &[u8; 32],
    res: Result<Vec<Record<DecryptedData>>, String>,
) -> (at: (Seq<RecordView<Seq<u8>>>, int))
    requires
        call_ensures(decrypt_run::<E>, (run, key), res),
    ensures
        match res {
            Ok(plain) => {
                &&& plain@.len() == run@.len()
                &&& at.0.len() == run@.len()
                &&& forall|i: int|
                    0 <= i < run@.len() ==> is_opened::<E>(run@[i], key@, #[trigger] at.0[i])
                        && has_values(plain@[i], at.0[i]) && plain@[i].data.0@ == at.0[i].data
            },
            Err(msg) => is_refused_at::<E>(run@, key@, at.1, msg@),
        },
{
    match res {
        Ok(plain) => {
            lemma_opened::<E>(run@, key@, views(plain@));
            assert forall|i: int| 0 <= i < run@.len() implies is_opened::<E>(
                run@[i],
                key@,
                #[trigger] views(plain@)[i],
            ) && has_values(plain@[i], views(plain@)[i]) && plain@[i].data.0@ == views(
                plain@,
            )[i].data by {
                assert(views(plain@)[i] == plain@[i]@);
            }
            (views(plain@), 0)
        },
        Err(msg) => {
            let k = lemma_refused::<E>(run@, key@, msg@);
            (Seq::empty(), k)
        },
    }
}

/// A record starts an upload exactly where it is a manifest: with the id, index and host of the record,
/// and what follows the mark of the first version as the text to parse. It fails by its tag first.
pub proof fn law_upload_begins_with_a_manifest(
    manifest: &Record<EncryptedData>,
    state: UploadPacked,
)
    requires
        call_ensures(UploadPacked::begin, (manifest,), state),
    ensures
        match state {
            UploadPacked::ParseManifest { manifest_ref, body } => {
                &&& manifest.tag@ == "packfile"@
                &&& manifest.data.data@ == "001"@ + body@
                &&& manifest_ref.id == manifest.id
                &&& manifest_ref.idx == manifest.idx
                &&& manifest_ref.host == manifest.host.id
            },
            UploadPacked::Done(Err(UploadError::PackManifest(LoadingError::WrongTag(tag)))) => {
                manifest.tag@ != "packfile"@ && tag@ == manifest.tag@
            },
            UploadPacked::Done(Err(UploadError::PackManifest(LoadingError::UnknownVersion))) => {
                manifest.tag@ == "packfile"@ && !"001"@.is_prefix_of(manifest.data.data@)
            },
            _ => false,
        },
{
    lemma_body(manifest.tag@, manifest.data.data@);
}

proof fn lemma_body(tag: Seq<char>, data: Seq<char>)
    ensures
        match manifest_body(tag, data) {
            Ok(body) => tag == "packfile"@ && data == "001"@ + body,
            Err(LoadingView::WrongTag(t)) => tag != "packfile"@ && t == tag,
            Err(LoadingView::UnknownVersion) => tag == "packfile"@ && !"001"@.is_prefix_of(data),
            Err(LoadingView::MalformedBody(_)) => false,
        },
{
    reveal_strlit("001");
    if manifest_body(tag, data) is Ok {
        assert(data =~= data.take(3) + data.skip(3));
    }
    if tag == PACKFILE_TAG@ && "001"@.is_prefix_of(data) {
        assert(data.take(3) =~= "001"@);
    }
}

/// An upload reads the run that the manifest names: that of the manifest's host, of history, from its
/// first index and up to its last.
pub proof fn law_upload_reads_the_run_named<E: Encryption>(
    manifest_ref: PackManifestRef,
    body: String,
    range: PackManifestDataV1,
    key: &[u8; 32],
    next: UploadPacked,
)
    requires
        range.start_idx <= range.end_idx,
        range.end_idx - range.start_idx < u64::MAX,
        call_ensures(
            upload_packed::<E>,
            (
                UploadPacked::ParseManifest { manifest_ref, body },
                UploadEvent::ManifestParsed(Ok(range)),
                key,
            ),
            next,
        ),
    ensures
        next is ReadRun,
        next->ReadRun_manifest_ref == manifest_ref,
        next->host == manifest_ref.host,
        next->tag@ == "history"@,
        next->start == range.start_idx,
        next->start + next->count == range.end_idx + 1,
{
}

/// What is bundled is the run that was read, all of it and in its order: the ids are those of its
/// records, and the body is what comes of packing the records as the cipher opens them. An upload
/// that does not get there fails as the cipher did on the first record that does not open, or as
/// packing did. The values of the opened records, or the place of that record, are returned.
pub proof fn law_upload_bundles_the_run_read<E: Encryption>(
    state: UploadPacked,
    run: Vec<Record<EncryptedData>>,
    key: &[u8; 32],
    next: UploadPacked,
) -> (at: (Seq<RecordView<Seq<u8>>>, int))
    requires
        state is ReadRun,
        call_ensures(upload_packed::<E>, (state, UploadEvent::RunRead(Ok(run)), key), next),
    ensures
        next is CreateBundle || (next is Done && next->Done_0 is Err && (next->Done_0->Err_0 is Pack
            || next->Done_0->Err_0 is Decrypt)),
        !(next is Done && next->Done_0->Err_0 is Decrypt) ==> {
            &&& at.0.len() == run@.len()
            &&& forall|i: int|
                0 <= i < run@.len() ==> is_opened::<E>(run@[i], key@, #[trigger] at.0[i])
            &&& packs_as::<E>(
                at.0,
                state->ReadRun_manifest_ref,
                key@,
                match next {
                    UploadPacked::CreateBundle { blob, .. } => Ok(blob@),
                    _ => Err(next->Done_0->Err_0->Pack_0),
                },
            )
        },
        next matches UploadPacked::CreateBundle { ids, .. } ==> {
            &&& ids@.len() == run@.len()
            &&& forall|i: int| 0 <= i < run@.len() ==> #[trigger] ids@[i] == run@[i].id
        },
        next matches UploadPacked::Done(Err(UploadError::Decrypt(msg))) ==> is_refused_at::<E>(
            run@,
            key@,
            at.1,
            msg@,
        ),
{
    let manifest_ref = state->ReadRun_manifest_ref;
    assert(run_packs_to::<E>(run@, manifest_ref, key@, next));
    match next {
        UploadPacked::Done(Err(UploadError::Decrypt(msg))) => {
            let k = lemma_refused::<E>(run@, key@, msg@);
            (Seq::empty(), k)
        },
        _ => {
            let res: Result<Seq<u8>, CodecError> = match next {
                UploadPacked::CreateBundle { blob, .. } => Ok(blob@),
                _ => Err(next->Done_0->Err_0->Pack_0),
            };
            let plain = lemma_run_packed::<E>(run@, manifest_ref, key@, next, res);
            (plain, 0)
        },
    }
}

proof fn lemma_run_packed<E: Encryption>(
    run: Seq<Record<EncryptedData>>,
    manifest_ref: PackManifestRef,
    key: Seq<u8>,
    after: UploadPacked,
    res: Result<Seq<u8>, CodecError>,
) -> (plain: Seq<RecordView<Seq<u8>>>)
    requires
        run_packs_to::<E>(run, manifest_ref, key, after),
        (after is CreateBundle && res == Ok::<Seq<u8>, CodecError>(
            after->CreateBundle_blob@,
        )) || (after is Done && after->Done_0 is Err && after->Done_0->Err_0 is Pack && res == Err::<
            Seq<u8>,
            CodecError,
        >(after->Done_0->Err_0->Pack_0)),
    ensures
        plain.len() == run.len(),
        forall|i: int| 0 <= i < run.len() ==> is_opened::<E>(run[i], key, #[trigger] plain[i]),
        packs_as::<E>(plain, manifest_ref, key, res),
{
    let plain = choose|plain: Seq<RecordView<Seq<u8>>>| #[trigger]
        run_opens_as::<E>(views(run), key, plain) && packs_to::<E>(
            plain,
            body_binding(manifest_ref),
            key,
            res,
        );
    lemma_opened::<E>(run, key, plain);
    lemma_packs_as::<E>(plain, manifest_ref, key, res);
    plain
}

/// The steps of an upload are those that [`upload_packed`] takes, and those of a download those that
/// [`download_packed`] takes.
pub proof fn law_bundle_steps<E: Encryption>(
    up: UploadPacked,
    up_event: UploadEvent,
    up_next: UploadPacked,
    down: DownloadPacked,
    down_event: DownloadEvent,
    down_next: DownloadPacked,
    key: &[u8; 32],
)
    requires
        call_ensures(upload_packed::<E>, (up, up_event, key), up_next),
        call_ensures(download_packed::<E>, (down, down_event, key), down_next),
    ensures
        upload_step::<E>(up, up_event, key@, up_next),
        download_step::<E>(down, down_event, key@, down_next),
{
}

/// What packing gave goes to the server as it is, with the ids as they are; a failure is handed on.
pub proof fn law_bundle_is_what_was_packed(
    ids: Vec<RecordId>,
    packed: Result<Vec<u8>, CodecError>,
    next: UploadPacked,
)
    requires
        call_ensures(bundle_packed, (ids, packed), next),
    ensures
        match packed {
            Ok(blob) => next == (UploadPacked::CreateBundle { ids, blob }),
            Err(e) => next == UploadPacked::Done(Err(UploadError::Pack(e))),
        },
{
}

/// The body goes to the address that the server gave, and the upload yields the id that the server
/// gave. A failure of the store or the server is handed on as it came. What was not asked for changes
/// nothing, and what is done stays done.
pub proof fn law_upload_hands_on_what_it_was_given<E: Encryption>(
    state: UploadPacked,
    event: UploadEvent,
    key: &[u8; 32],
    next: UploadPacked,
)
    requires
        call_ensures(upload_packed::<E>, (state, event, key), next),
    ensures
        (state is CreateBundle && event is BundleCreated && event->BundleCreated_0 is Ok) ==> next
            == (UploadPacked::PutPackfile {
            url: event->BundleCreated_0->Ok_0.0,
            blob: state->CreateBundle_blob,
            bundle_id: event->BundleCreated_0->Ok_0.1,
        }),
        (state is PutPackfile && event is PackfilePut && event->PackfilePut_0 is Ok) ==> next
            == UploadPacked::Done(Ok(state->bundle_id)),
        (state is ParseManifest && event is ManifestParsed && event->ManifestParsed_0 is Err)
            ==> next == UploadPacked::Done(
            Err(
                UploadError::PackManifest(
                    LoadingError::MalformedBody(event->ManifestParsed_0->Err_0),
                ),
            ),
        ),
        (state is ReadRun && event is RunRead && event->RunRead_0 is Err) ==> next
            == UploadPacked::Done(Err(UploadError::Store(event->RunRead_0->Err_0))),
        (state is CreateBundle && event is BundleCreated && event->BundleCreated_0 is Err) ==> next
            == UploadPacked::Done(Err(UploadError::Api(event->BundleCreated_0->Err_0))),
        (state is PutPackfile && event is PackfilePut && event->PackfilePut_0 is Err) ==> next
            == UploadPacked::Done(Err(UploadError::Api(event->PackfilePut_0->Err_0))),
        (state is Done || (state is ParseManifest && !(event is ManifestParsed)) || (state is ReadRun
            && !(event is RunRead)) || (state is CreateBundle && !(event is BundleCreated)) || (
        state is PutPackfile && !(event is PackfilePut))) ==> next == state,
{
}

/// A record starts a download exactly where it is a manifest, as it does an upload.
pub proof fn law_download_begins_with_a_manifest(
    manifest: &Record<EncryptedData>,
    state: DownloadPacked,
)
    requires
        call_ensures(DownloadPacked::begin, (manifest,), state),
    ensures
        match state {
            DownloadPacked::ParseManifest { manifest_ref, body } => {
                &&& manifest.tag@ == "packfile"@
                &&& manifest.data.data@ == "001"@ + body@
                &&& manifest_ref.id == manifest.id
                &&& manifest_ref.idx == manifest.idx
                &&& manifest_ref.host == manifest.host.id
            },
            DownloadPacked::Done(Err(DownloadError::PackManifest(LoadingError::WrongTag(tag)))) => {
                manifest.tag@ != "packfile"@ && tag@ == manifest.tag@
            },
            DownloadPacked::Done(
                Err(DownloadError::PackManifest(LoadingError::UnknownVersion)),
            ) => { manifest.tag@ == "packfile"@ && !"001"@.is_prefix_of(manifest.data.data@) },
            _ => false,
        },
{
    lemma_body(manifest.tag@, manifest.data.data@);
}

/// A download looks for the run that the manifest names, in the history of the manifest's host, and
/// reads it where the head that was read is not before the end of the run; otherwise the bundle is
/// fetched.
pub proof fn law_download_looks_for_the_run_named<E: Encryption>(
    state: DownloadPacked,
    event: DownloadEvent,
    key: &[u8; 32],
    next: DownloadPacked,
)
    requires
        call_ensures(download_packed::<E>, (state, event, key), next),
    ensures
        (state is ParseManifest && event is ManifestParsed && event->ManifestParsed_0 is Ok) ==> {
            &&& next is ReadHead
            &&& next->ReadHead_manifest_ref == state->ParseManifest_manifest_ref
            &&& next->ReadHead_host == state->ParseManifest_manifest_ref.host
            &&& next->ReadHead_tag@ == "history"@
            &&& next->range == event->ManifestParsed_0->Ok_0
        },
        (state is ReadHead && event is HeadRead && event->HeadRead_0 is Ok) ==> {
            let (head, range) = (event->HeadRead_0->Ok_0, state->range);
            &&& (head matches Some(idx) && idx >= range.end_idx && range.start_idx <= range.end_idx
                && range.end_idx - range.start_idx < u64::MAX) ==> {
                &&& next is ReadLocal
                &&& next->ReadLocal_manifest_ref == state->ReadHead_manifest_ref
                &&& next->ReadLocal_host == state->ReadHead_host
                &&& next->ReadLocal_tag == state->ReadHead_tag
                &&& next->ReadLocal_start == range.start_idx
                &&& next->ReadLocal_start + next->ReadLocal_count == range.end_idx + 1
            }
            &&& (head is None || head->0 < range.end_idx) ==> next == (DownloadPacked::FetchUrl {
                manifest_ref: state->ReadHead_manifest_ref,
            })
        },
{
}

/// A run is whole exactly where it has as many records as it should, of the indices that follow one
/// another from its start.
pub proof fn law_whole_run_has_no_gap(
    run: &Vec<Record<EncryptedData>>,
    start: RecordIdx,
    count: u64,
    r: bool,
)
    requires
        call_ensures(is_whole, (run, start, count), r),
    ensures
        r <==> run@.len() == count && forall|i: int|
            0 <= i < run@.len() ==> (#[trigger] run@[i]).idx == start + i,
{
}

/// A run that is whole in the local store ends the download with the ids of its records, one for one; a
/// run that is not is fetched.
pub proof fn law_whole_local_run_is_enough<E: Encryption>(
    state: DownloadPacked,
    run: Vec<Record<EncryptedData>>,
    key: &[u8; 32],
    next: DownloadPacked,
)
    requires
        state is ReadLocal,
        call_ensures(download_packed::<E>, (state, DownloadEvent::LocalRead(Ok(run)), key), next),
    ensures
        ({
            let (start, count) = (state->ReadLocal_start, state->ReadLocal_count);
            if run@.len() == count && (forall|i: int|
                0 <= i < run@.len() ==> (#[trigger] run@[i]).idx == start + i) {
                &&& next is Done && next->Done_0 is Ok
                &&& next->Done_0->Ok_0@.len() == run@.len()
                &&& forall|i: int|
                    0 <= i < run@.len() ==> #[trigger] next->Done_0->Ok_0@[i] == run@[i].id
            } else {
                next == (DownloadPacked::FetchUrl { manifest_ref: state->ReadLocal_manifest_ref })
            }
        }),
{
}

proof fn lemma_sealed<E: Encryption>(
    plain: Seq<RecordView<Seq<u8>>>,
    key: Seq<u8>,
    records: Seq<Record<EncryptedData>>,
)
    requires
        run_seals_as::<E>(plain, key, views(records)),
    ensures
        records.len() == plain.len(),
        forall|i: int|
            0 <= i < plain.len() ==> has_values(#[trigger] records[i], plain[i]) && cipher_seals::<
                E,
            >(plain[i], key, records[i]),
{
    assert forall|i: int| 0 <= i < plain.len() implies has_values(#[trigger] records[i], plain[i])
        && cipher_seals::<E>(plain[i], key, records[i]) by {
        let sealed = views(records)[i];
        assert(sealed == records[i]@);
        assert(is_encryption_of::<E>(sealed, plain[i], key));
        let (d, a, k, e) = choose|
            d: DecryptedData,
            a: AdditionalData<'static>,
            k: &'static [u8; 32],
            e: EncryptedData,
        | #[trigger]
            call_ensures(E::encrypt, (d, a, k), e) && d@ == plain[i].data && a@ == record_binding(
                plain[i],
            ) && k@ == key && e@ == sealed.data;
        assert(call_ensures(E::encrypt, (d, a, k), e));
    }
}

/// A run that is encrypted keeps its records, in their order and with every field but the data, which
/// is what the cipher made of it.
pub proof fn law_run_is_encrypted_record_by_record<E: Encryption>(
    plain: Vec<Record<DecryptedData>>,
    key: &[u8; 32],
    sealed: Vec<Record<EncryptedData>>,
    i: int,
)
    requires
        call_ensures(encrypt_run::<E>, (plain, key), sealed),
        0 <= i < plain@.len(),
    ensures
        sealed@.len() == plain@.len(),
        has_values(sealed@[i], plain@[i]@),
        has_values(plain@[i], plain@[i]@),
        plain@[i]@.data == plain@[i].data.0@,
        cipher_seals::<E>(plain@[i]@, key@, sealed@[i]),
{
    lemma_sealed::<E>(views(plain@), key@, sealed@);
    assert(views(plain@)[i] == plain@[i]@);
    assert(has_values(sealed@[i], views(plain@)[i]));
}

/// What was fetched is unpacked for the manifest, and what comes of that is stored, all of it and in its
/// order: every field as it was packed, the data encrypted again, and the ids those of the records.
/// Where it does not unpack, the download fails as that failed. The values are returned.
pub proof fn law_download_stores_what_the_bundle_holds<E: Encryption>(
    state: DownloadPacked,
    blob: Vec<u8>,
    key: &[u8; 32],
    next: DownloadPacked,
) -> (plain: Seq<RecordView<Seq<u8>>>)
    requires
        state is FetchBlob,
        call_ensures(download_packed::<E>, (state, DownloadEvent::BlobFetched(Ok(blob)), key), next),
    ensures
        match next {
            DownloadPacked::StoreHistory { records, ids } => {
                &&& unpacks_as::<E>(blob@, state->FetchBlob_manifest_ref, key@, Ok(plain))
                &&& records@.len() == plain.len()
                &&& forall|i: int|
                    0 <= i < plain.len() ==> has_values(#[trigger] records@[i], plain[i])
                        && cipher_seals::<E>(plain[i], key@, records@[i])
                &&& ids@.len() == records@.len()
                &&& forall|i: int| 0 <= i < ids@.len() ==> #[trigger] ids@[i] == records@[i].id
            },
            DownloadPacked::Done(Err(DownloadError::Unpack(e))) => unpacks_as::<E>(
                blob@,
                state->FetchBlob_manifest_ref,
                key@,
                Err(e),
            ),
            _ => false,
        },
{
    let manifest_ref = state->FetchBlob_manifest_ref;
    assert(blob_expands_to::<E>(blob@, manifest_ref, key@, next));
    match next {
        DownloadPacked::StoreHistory { records, .. } => {
            let plain = choose|plain: Seq<RecordView<Seq<u8>>>| #[trigger]
                run_seals_as::<E>(plain, key@, views(records@))
                    && unpacks_to::<E>(
                    blob@,
                    body_binding(manifest_ref),
                    key@,
                    Ok(plain),
                );
            lemma_sealed::<E>(plain, key@, records@);
            lemma_unpacks_as::<E>(blob@, manifest_ref, key@, Ok(plain));
            plain
        },
        DownloadPacked::Done(Err(DownloadError::Unpack(e))) => {
            lemma_unpacks_as::<E>(blob@, manifest_ref, key@, Err(e));
            Seq::empty()
        },
        _ => Seq::empty(),
    }
}

/// What came of unpacking is stored, all of it, encrypted again; a failure to unpack is handed on.
pub proof fn law_unpacked_records_are_stored<E: Encryption>(
    unpacked: Result<Vec<Record<DecryptedData>>, CodecError>,
    key: &[u8; 32],
    next: DownloadPacked,
)
    requires
        call_ensures(store_unpacked::<E>, (unpacked, key), next),
    ensures
        match (unpacked, next) {
            (Ok(plain), DownloadPacked::StoreHistory { records, ids }) => {
                &&& records@.len() == plain@.len()
                &&& forall|i: int|
                    0 <= i < plain@.len() ==> has_values(#[trigger] records@[i], plain@[i]@)
                        && cipher_seals::<E>(plain@[i]@, key@, records@[i])
                &&& ids@.len() == records@.len()
                &&& forall|i: int| 0 <= i < ids@.len() ==> #[trigger] ids@[i] == records@[i].id
            },
            (Err(e), DownloadPacked::Done(Err(DownloadError::Unpack(said)))) => said == e,
            _ => false,
        },
{
    if unpacked is Ok {
        let (plain, records) = (unpacked->Ok_0, next->StoreHistory_records);
        lemma_sealed::<E>(views(plain@), key@, records@);
        assert forall|i: int| 0 <= i < plain@.len() implies has_values(
            #[trigger] records@[i],
            plain@[i]@,
        ) && cipher_seals::<E>(plain@[i]@, key@, records@[i]) by {
            assert(views(plain@)[i] == plain@[i]@);
        }
    }
}

/// The bundle is fetched from the address that the server gave, and the download yields the ids of what
/// was stored. A failure of the store or the server is handed on as it came. What was not asked for
/// changes nothing, and what is done stays done.
pub proof fn law_download_hands_on_what_it_was_given<E: Encryption>(
    state: DownloadPacked,
    event: DownloadEvent,
    key: &[u8; 32],
    next: DownloadPacked,
)
    requires
        call_ensures(download_packed::<E>, (state, event, key), next),
    ensures
        (state is FetchUrl && event is UrlFetched && event->UrlFetched_0 is Ok) ==> next == (
        DownloadPacked::FetchBlob {
            manifest_ref: state->FetchUrl_manifest_ref,
            url: event->UrlFetched_0->Ok_0,
        }),
        (state is StoreHistory && event is HistoryStored && event->HistoryStored_0 is Ok) ==> next
            == DownloadPacked::Done(Ok(state->ids)),
        (state is ParseManifest && event is ManifestParsed && event->ManifestParsed_0 is Err)
            ==> next == DownloadPacked::Done(
            Err(
                DownloadError::PackManifest(
                    LoadingError::MalformedBody(event->ManifestParsed_0->Err_0),
                ),
            ),
        ),
        (state is ReadHead && event is HeadRead && event->HeadRead_0 is Err) ==> next
            == DownloadPacked::Done(Err(DownloadError::Store(event->HeadRead_0->Err_0))),
        (state is ReadLocal && event is LocalRead && event->LocalRead_0 is Err) ==> next
            == DownloadPacked::Done(Err(DownloadError::Store(event->LocalRead_0->Err_0))),
        (state is FetchUrl && event is UrlFetched && event->UrlFetched_0 is Err) ==> next
            == DownloadPacked::Done(Err(DownloadError::Api(event->UrlFetched_0->Err_0))),
        (state is FetchBlob && event is BlobFetched && event->BlobFetched_0 is Err) ==> next
            == DownloadPacked::Done(Err(DownloadError::Api(event->BlobFetched_0->Err_0))),
        (state is StoreHistory && event is HistoryStored && event->HistoryStored_0 is Err) ==> next
            == DownloadPacked::Done(Err(DownloadError::Store(event->HistoryStored_0->Err_0))),
        (state is Done || (state is ParseManifest && !(event is ManifestParsed)) || (state
            is ReadHead && !(event is HeadRead)) || (state is ReadLocal && !(event is LocalRead))
            || (state is FetchUrl && !(event is UrlFetched)) || (state is FetchBlob && !(
        event is BlobFetched)) || (state is StoreHistory && !(event is HistoryStored))) ==> next
            == state,
{
}

} // verus!
