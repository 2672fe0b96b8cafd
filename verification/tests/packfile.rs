//! Manifests, and the upload and download of the bundles they describe.

use atuin_client::history::HISTORY_TAG;
use atuin_client::packfile::batch::{next_batch, Batch};
use atuin_client::packfile::codec::{pack, CodecError, PackManifestRef};
use atuin_client::packfile::download::{
    download_packed, download_packed_many, encrypt_run, is_whole, store_unpacked, DownloadError,
    DownloadEvent, DownloadMany, DownloadPacked, DOWNLOAD_CONCURRENCY,
};
use atuin_client::packfile::record::{
    LoadingError, PackManifest, PackManifestDataV1, StoringError, PACKFILE_TAG, PACKFILE_VERSION,
};
use atuin_client::packfile::upload::{
    bundle_packed, decrypt_run, upload_packed, upload_packed_many, UploadError, UploadEvent,
    UploadMany, UploadPacked, UPLOAD_CONCURRENCY,
};
use atuin_client::record::domain::{
    record_ids, AdditionalData, DecryptedData, EncryptedData, Host, HostId, Record, RecordId,
};
use atuin_client::record::encryption::Encryption;

/// A cipher for tests: what is sealed opens only under the same key and bound to the same values.
struct Sealed;

fn seal(ad: &AdditionalData<'_>, key: &[u8; 32]) -> String {
    format!("{:?}", (ad.id, ad.idx, ad.version, ad.tag, ad.host, key))
}

impl Encryption for Sealed {
    fn encrypt(data: DecryptedData, ad: AdditionalData<'_>, key: &[u8; 32]) -> EncryptedData {
        EncryptedData {
            data: data.0.iter().map(|byte| format!("{byte:02x}")).collect(),
            content_encryption_key: seal(&ad, key),
        }
    }

    fn decrypt(
        data: EncryptedData,
        ad: AdditionalData<'_>,
        key: &[u8; 32],
    ) -> Result<DecryptedData, String> {
        if data.content_encryption_key != seal(&ad, key) {
            return Err(String::from("the seal is broken"));
        }
        let digits: Vec<u8> =
            data.data.chars().map(|c| c.to_digit(16).unwrap() as u8).collect();
        Ok(DecryptedData(digits.chunks(2).map(|pair| pair[0] * 16 + pair[1]).collect()))
    }
}

/// A store of records in memory.
struct Store(Vec<Record<EncryptedData>>);

impl Store {
    fn push(&mut self, record: Record<EncryptedData>) {
        if self.0.iter().all(|known| known.id != record.id) {
            self.0.push(record);
        }
    }

    fn next(&self, host: HostId, tag: &str, start: u64, limit: u64) -> Vec<Record<EncryptedData>> {
        let mut run: Vec<Record<EncryptedData>> = self
            .0
            .iter()
            .filter(|r| r.host.id == host && r.tag == tag && r.idx >= start)
            .cloned()
            .collect();
        run.sort_by_key(|r| r.idx);
        run.truncate(limit as usize);
        run
    }

    fn last(&self, host: HostId, tag: &str) -> Option<Record<EncryptedData>> {
        self.next(host, tag, 0, u64::MAX).pop()
    }
}

const HOST: HostId = HostId(0x0190_0000_0000_7000_8000_0000_0000_0001);

fn history(idx: u64, text: String, key: &[u8; 32]) -> Record<EncryptedData> {
    Record {
        id: RecordId(1000 + idx as u128),
        idx,
        host: Host::new(HOST),
        timestamp: 7,
        version: String::from("v1"),
        tag: HISTORY_TAG.to_owned(),
        data: DecryptedData(text.into_bytes()),
    }
    .encrypt::<Sealed>(key)
}

fn seed_encrypted_history(store: &mut Store, key: &[u8; 32], count: u64) {
    for idx in 0..count {
        store.push(history(idx, format!("command number {idx}"), key));
    }
}

fn manifest(start_idx: u64, end_idx: u64) -> Record<EncryptedData> {
    Record {
        id: RecordId(77),
        idx: 0,
        host: Host::new(HOST),
        timestamp: 8,
        version: PACKFILE_VERSION.to_owned(),
        tag: PACKFILE_TAG.to_owned(),
        data: EncryptedData::try_from(&PackManifestDataV1 { start_idx, end_idx }).unwrap(),
    }
}

fn parse(body: &str) -> Result<PackManifestDataV1, String> {
    let value: serde_json::Value = serde_json::from_str(body).map_err(|e| e.to_string())?;
    let field = |name: &str| {
        value
            .get(name)
            .and_then(serde_json::Value::as_u64)
            .ok_or_else(|| format!("missing field `{name}`"))
    };
    Ok(PackManifestDataV1 { start_idx: field("start_idx")?, end_idx: field("end_idx")? })
}

/// What a server saw of an upload.
#[derive(Debug, Default, PartialEq)]
struct Requests {
    bundles: Vec<(Vec<RecordId>, usize)>,
    puts: Vec<(String, Vec<u8>)>,
}

fn drive_upload(
    manifest: &Record<EncryptedData>,
    store: &Store,
    key: &[u8; 32],
    bundle_id: RecordId,
    seen: &mut Requests,
) -> Result<RecordId, UploadError> {
    let mut state = UploadPacked::begin(manifest);
    loop {
        let event = match &state {
            UploadPacked::ParseManifest { body, .. } => UploadEvent::ManifestParsed(parse(body)),
            UploadPacked::ReadRun { host, tag, start, count, .. } => {
                UploadEvent::RunRead(Ok(store.next(*host, tag, *start, *count)))
            }
            UploadPacked::CreateBundle { ids, blob } => {
                seen.bundles.push((ids.clone(), blob.len()));
                UploadEvent::BundleCreated(Ok((String::from("/upload/abc"), bundle_id)))
            }
            UploadPacked::PutPackfile { url, blob, .. } => {
                seen.puts.push((url.clone(), blob.clone()));
                UploadEvent::PackfilePut(Ok(()))
            }
            UploadPacked::Done(_) => break,
        };
        state = upload_packed::<Sealed>(state, event, key);
    }
    match state {
        UploadPacked::Done(res) => res,
        other => panic!("not done: {other:?}"),
    }
}

fn drive_download(
    manifest: &Record<EncryptedData>,
    store: &mut Store,
    key: &[u8; 32],
    blob: Option<&[u8]>,
    fetched: &mut usize,
) -> Result<Vec<RecordId>, DownloadError> {
    let mut state = DownloadPacked::begin(manifest);
    loop {
        let event = match &state {
            DownloadPacked::ParseManifest { body, .. } => {
                DownloadEvent::ManifestParsed(parse(body))
            }
            DownloadPacked::ReadHead { host, tag, .. } => {
                DownloadEvent::HeadRead(Ok(store.last(*host, tag).map(|record| record.idx)))
            }
            DownloadPacked::ReadLocal { host, tag, start, count, .. } => {
                DownloadEvent::LocalRead(Ok(store.next(*host, tag, *start, *count)))
            }
            DownloadPacked::FetchUrl { manifest_ref } => {
                *fetched += 1;
                assert_eq!(manifest_ref.id, manifest.id);
                DownloadEvent::UrlFetched(Ok(String::from("/download/abc")))
            }
            DownloadPacked::FetchBlob { url, .. } => {
                *fetched += 1;
                assert_eq!(url, "/download/abc");
                DownloadEvent::BlobFetched(match blob {
                    Some(blob) => Ok(blob.to_vec()),
                    None => Err(String::from("404")),
                })
            }
            DownloadPacked::StoreHistory { records, .. } => {
                for record in records {
                    store.push(record.clone());
                }
                DownloadEvent::HistoryStored(Ok(()))
            }
            DownloadPacked::Done(_) => break,
        };
        state = download_packed::<Sealed>(state, event, key);
    }
    match state {
        DownloadPacked::Done(res) => res,
        other => panic!("not done: {other:?}"),
    }
}

#[test]
fn uploads_the_packed_range() {
    let key = [3u8; 32];
    let mut store = Store(Vec::new());
    seed_encrypted_history(&mut store, &key, 5);
    let manifest = manifest(0, 4);
    let bundle_id = RecordId(4242);
    let mut seen = Requests::default();

    let got = drive_upload(&manifest, &store, &key, bundle_id, &mut seen).unwrap();

    assert_eq!(got, bundle_id);
    assert_eq!(seen.bundles.len(), 1);
    assert_eq!(seen.puts.len(), 1);
    assert_eq!(seen.bundles[0].0, (0..5).map(|i| RecordId(1000 + i)).collect::<Vec<_>>());
    assert_eq!(seen.bundles[0].1, seen.puts[0].1.len());
    assert_eq!(seen.puts[0].0, "/upload/abc");
}

#[test]
fn an_upload_takes_only_the_run_of_its_manifest() {
    let key = [3u8; 32];
    let mut store = Store(Vec::new());
    seed_encrypted_history(&mut store, &key, 9);
    let mut seen = Requests::default();
    drive_upload(&manifest(2, 5), &store, &key, RecordId(1), &mut seen).unwrap();
    assert_eq!(seen.bundles[0].0, (2..6).map(|i| RecordId(1000 + i)).collect::<Vec<_>>());
}

#[test]
fn what_went_up_comes_down() {
    let key = [3u8; 32];
    let mut up = Store(Vec::new());
    seed_encrypted_history(&mut up, &key, 6);
    let manifest = manifest(0, 5);
    let mut seen = Requests::default();
    drive_upload(&manifest, &up, &key, RecordId(1), &mut seen).unwrap();

    let mut down = Store(Vec::new());
    let mut fetched = 0;
    let ids =
        drive_download(&manifest, &mut down, &key, Some(&seen.puts[0].1), &mut fetched).unwrap();
    assert_eq!(ids, record_ids(&up.next(HOST, HISTORY_TAG, 0, 6)));
    assert_eq!(down.next(HOST, HISTORY_TAG, 0, 6), up.next(HOST, HISTORY_TAG, 0, 6));
}

#[test]
fn download_packed_populates_history_from_the_bundle() {
    let key = [3u8; 32];
    let mut up = Store(Vec::new());
    seed_encrypted_history(&mut up, &key, 5);
    let manifest = manifest(0, 4);
    let decrypted: Vec<Record<DecryptedData>> = up
        .next(HOST, HISTORY_TAG, 0, 5)
        .into_iter()
        .map(|r| r.decrypt::<Sealed>(&key).unwrap())
        .collect();
    let blob = pack::<Sealed>(&decrypted, &PackManifestRef::from(&manifest), &key).unwrap();

    let mut down = Store(Vec::new());
    let mut fetched = 0;
    let ids = drive_download(&manifest, &mut down, &key, Some(&blob), &mut fetched).unwrap();
    assert_eq!(ids.len(), 5, "all five history records populated");
    assert_eq!(fetched, 2);

    let got = down.next(HOST, HISTORY_TAG, 0, 5);
    assert_eq!(got.len(), 5);
    let first = got[0].clone().decrypt::<Sealed>(&key).unwrap();
    assert_eq!(first.data.0, b"command number 0");
}

#[test]
fn download_packed_returns_range_ids_when_already_local() {
    let key = [3u8; 32];
    let manifest = manifest(0, 4);
    let mut down = Store(Vec::new());
    seed_encrypted_history(&mut down, &key, 5);
    let expected_ids = record_ids(&down.next(HOST, HISTORY_TAG, 0, 5));
    assert_eq!(expected_ids.len(), 5, "sanity: seeded ids captured");

    let mut fetched = 0;
    let ids = drive_download(&manifest, &mut down, &key, None, &mut fetched).unwrap();
    assert_eq!(fetched, 0, "the skip must happen before any network call");
    assert_eq!(
        ids, expected_ids,
        "range already local -> covered ids returned anyway, for re-indexing"
    );
}

#[test]
fn a_run_that_is_half_local_is_fetched() {
    let key = [3u8; 32];
    let mut up = Store(Vec::new());
    seed_encrypted_history(&mut up, &key, 5);
    let manifest = manifest(0, 4);
    let mut seen = Requests::default();
    drive_upload(&manifest, &up, &key, RecordId(1), &mut seen).unwrap();
    let mut down = Store(Vec::new());
    seed_encrypted_history(&mut down, &key, 4);
    let mut fetched = 0;
    let ids =
        drive_download(&manifest, &mut down, &key, Some(&seen.puts[0].1), &mut fetched).unwrap();
    assert_eq!((fetched, ids.len()), (2, 5));
    assert_eq!(down.0.len(), 5);
}

#[test]
fn a_run_with_a_gap_is_fetched() {
    let key = [3u8; 32];
    let mut up = Store(Vec::new());
    seed_encrypted_history(&mut up, &key, 10);
    let manifest = manifest(0, 4);
    let mut seen = Requests::default();
    drive_upload(&manifest, &up, &key, RecordId(1), &mut seen).unwrap();
    let blob = Some(seen.puts[0].1.as_slice());
    let expected = record_ids(&up.next(HOST, HISTORY_TAG, 0, 5));

    // Only 5..=9 is there: the history reaches past the run, but has none of it.
    let mut down = Store(up.next(HOST, HISTORY_TAG, 5, 5));
    let mut fetched = 0;
    let ids = drive_download(&manifest, &mut down, &key, blob, &mut fetched).unwrap();
    assert_eq!((fetched, &ids), (2, &expected));
    assert_eq!(down.next(HOST, HISTORY_TAG, 0, 10), up.next(HOST, HISTORY_TAG, 0, 10));

    // One record of the run is missing.
    let mut down = Store(up.0.iter().filter(|r| r.idx != 3).cloned().collect());
    let mut fetched = 0;
    let ids = drive_download(&manifest, &mut down, &key, blob, &mut fetched).unwrap();
    assert_eq!((fetched, &ids), (2, &expected));
    assert_eq!(down.0.len(), 10);

    // Again, without a request.
    let mut fetched = 0;
    let ids = drive_download(&manifest, &mut down, &key, None, &mut fetched).unwrap();
    assert_eq!((fetched, &ids), (0, &expected));
    assert_eq!(down.0.len(), 10);
}

#[test]
fn a_whole_run_has_no_gap() {
    let key = [3u8; 32];
    let run: Vec<_> = (4..8).map(|idx| history(idx, String::new(), &key)).collect();
    assert!(is_whole(&run, 4, 4));
    assert!(!is_whole(&run, 4, 5));
    assert!(!is_whole(&run, 3, 4));
    assert!(!is_whole(&run, 5, 4));
    assert!(is_whole(&vec![], 9, 0));
}

#[test]
fn what_packing_and_unpacking_lead_to() {
    let key = [3u8; 32];
    match bundle_packed(vec![RecordId(1)], Ok(vec![7, 8])) {
        UploadPacked::CreateBundle { ids, blob } => {
            assert_eq!((ids, blob), (vec![RecordId(1)], vec![7, 8]));
        }
        other => panic!("no bundle: {other:?}"),
    }
    assert!(matches!(
        bundle_packed(vec![], Err(CodecError::TooLarge)),
        UploadPacked::Done(Err(UploadError::Pack(CodecError::TooLarge)))
    ));
    let run = vec![history(0, String::from("cmd"), &key)];
    let plain = decrypt_run::<Sealed>(run.clone(), &key).unwrap();
    match store_unpacked::<Sealed>(Ok(plain), &key) {
        DownloadPacked::StoreHistory { records, ids } => {
            assert_eq!((records, ids), (run, vec![RecordId(1000)]));
        }
        other => panic!("nothing to store: {other:?}"),
    }
    assert!(matches!(
        store_unpacked::<Sealed>(Err(CodecError::TooLarge), &key),
        DownloadPacked::Done(Err(DownloadError::Unpack(CodecError::TooLarge)))
    ));
}

#[test]
fn upload_errors() {
    let key = [3u8; 32];
    let mut store = Store(Vec::new());
    seed_encrypted_history(&mut store, &key, 3);
    let mut seen = Requests::default();

    let mut wrong = manifest(0, 2);
    wrong.tag = String::from("history");
    assert_eq!(
        drive_upload(&wrong, &store, &key, RecordId(1), &mut seen),
        Err(UploadError::PackManifest(LoadingError::WrongTag(String::from("history"))))
    );

    let why = String::from("why");
    let parse_state = || UploadPacked::begin(&manifest(0, 2));
    let read_state = || {
        let parsed = Ok(PackManifestDataV1 { start_idx: 0, end_idx: 2 });
        upload_packed::<Sealed>(parse_state(), UploadEvent::ManifestParsed(parsed), &key)
    };
    let create_state = || {
        let run = store.next(HOST, HISTORY_TAG, 0, 3);
        upload_packed::<Sealed>(read_state(), UploadEvent::RunRead(Ok(run)), &key)
    };
    let put_state = || {
        let made = Ok((String::from("u"), RecordId(5)));
        upload_packed::<Sealed>(create_state(), UploadEvent::BundleCreated(made), &key)
    };
    let failed = |state: UploadPacked, event: UploadEvent| {
        match upload_packed::<Sealed>(state, event, &key) {
            UploadPacked::Done(Err(e)) => e,
            other => panic!("no failure: {other:?}"),
        }
    };

    assert_eq!(
        failed(parse_state(), UploadEvent::ManifestParsed(Err(why.clone()))),
        UploadError::PackManifest(LoadingError::MalformedBody(why.clone()))
    );
    assert_eq!(
        failed(read_state(), UploadEvent::RunRead(Err(why.clone()))),
        UploadError::Store(why.clone())
    );
    let mut broken = store.next(HOST, HISTORY_TAG, 0, 3);
    broken[1].idx = 9;
    assert_eq!(
        failed(read_state(), UploadEvent::RunRead(Ok(broken))),
        UploadError::Decrypt(String::from("the seal is broken"))
    );
    assert_eq!(
        failed(create_state(), UploadEvent::BundleCreated(Err(why.clone()))),
        UploadError::Api(why.clone())
    );
    assert_eq!(
        failed(put_state(), UploadEvent::PackfilePut(Err(why.clone()))),
        UploadError::Api(why.clone())
    );
}

#[test]
fn an_upload_ignores_what_it_did_not_ask_for() {
    let key = [3u8; 32];
    let state = UploadPacked::begin(&manifest(0, 2));
    let next = upload_packed::<Sealed>(state, UploadEvent::PackfilePut(Ok(())), &key);
    assert!(matches!(next, UploadPacked::ParseManifest { .. }));
    let done = UploadPacked::Done(Ok(RecordId(3)));
    let next = upload_packed::<Sealed>(done, UploadEvent::PackfilePut(Ok(())), &key);
    assert!(matches!(next, UploadPacked::Done(Ok(RecordId(3)))));
}

#[test]
fn the_range_of_a_manifest_is_inclusive() {
    let state = UploadPacked::begin(&manifest(3, 3));
    let parsed = Ok(PackManifestDataV1 { start_idx: 3, end_idx: 3 });
    let event = UploadEvent::ManifestParsed(parsed);
    match upload_packed::<Sealed>(state, event, &[0; 32]) {
        UploadPacked::ReadRun { manifest_ref, host, tag, start, count } => {
            assert_eq!(manifest_ref, PackManifestRef { id: RecordId(77), idx: 0, host: HOST });
            assert_eq!((host, tag, start, count), (HOST, "history", 3, 1));
        }
        other => panic!("not reading: {other:?}"),
    }
    assert_eq!(PackManifestDataV1 { start_idx: 10, end_idx: 19 }.count(), 10);
}

#[test]
fn download_errors() {
    let key = [3u8; 32];
    let why = String::from("why");
    let mut wrong = manifest(0, 2);
    wrong.data.data = String::from("002{}");
    let mut empty = Store(Vec::new());
    let mut fetched = 0;
    assert_eq!(
        drive_download(&wrong, &mut empty, &key, None, &mut fetched),
        Err(DownloadError::PackManifest(LoadingError::UnknownVersion))
    );
    assert_eq!(
        drive_download(&manifest(0, 2), &mut empty, &key, None, &mut fetched),
        Err(DownloadError::Api(String::from("404")))
    );
    assert!(matches!(
        drive_download(&manifest(0, 2), &mut empty, &key, Some(b"junk"), &mut fetched),
        Err(DownloadError::Unpack(CodecError::Decode(_)))
    ));
    assert_eq!(empty.0.len(), 0);

    let failed = |state: DownloadPacked, event: DownloadEvent| {
        match download_packed::<Sealed>(state, event, &key) {
            DownloadPacked::Done(Err(e)) => e,
            other => panic!("no failure: {other:?}"),
        }
    };
    let manifest_ref = PackManifestRef { id: RecordId(77), idx: 0, host: HOST };
    let range = PackManifestDataV1 { start_idx: 0, end_idx: 2 };
    assert_eq!(
        failed(
            DownloadPacked::begin(&manifest(0, 2)),
            DownloadEvent::ManifestParsed(Err(why.clone()))
        ),
        DownloadError::PackManifest(LoadingError::MalformedBody(why.clone()))
    );
    assert_eq!(
        failed(
            DownloadPacked::ReadHead { manifest_ref, host: HOST, tag: HISTORY_TAG, range },
            DownloadEvent::HeadRead(Err(why.clone()))
        ),
        DownloadError::Store(why.clone())
    );
    assert_eq!(
        failed(
            DownloadPacked::ReadLocal {
                manifest_ref,
                host: HOST,
                tag: HISTORY_TAG,
                start: 0,
                count: 3,
            },
            DownloadEvent::LocalRead(Err(why.clone()))
        ),
        DownloadError::Store(why.clone())
    );
    assert_eq!(
        failed(
            DownloadPacked::FetchUrl { manifest_ref },
            DownloadEvent::UrlFetched(Err(why.clone()))
        ),
        DownloadError::Api(why.clone())
    );
    assert_eq!(
        failed(
            DownloadPacked::StoreHistory { records: vec![], ids: vec![] },
            DownloadEvent::HistoryStored(Err(why.clone()))
        ),
        DownloadError::Store(why)
    );
}

#[test]
fn a_bundle_of_another_manifest_is_refused() {
    let key = [3u8; 32];
    let mut up = Store(Vec::new());
    seed_encrypted_history(&mut up, &key, 3);
    let mut other = manifest(0, 2);
    other.id = RecordId(78);
    let mut seen = Requests::default();
    drive_upload(&other, &up, &key, RecordId(1), &mut seen).unwrap();
    let mut down = Store(Vec::new());
    let mut fetched = 0;
    let blob = Some(seen.puts[0].1.as_slice());
    assert_eq!(
        drive_download(&manifest(0, 2), &mut down, &key, blob, &mut fetched),
        Err(DownloadError::Unpack(CodecError::Decrypt(String::from("the seal is broken"))))
    );
    assert_eq!(down.0.len(), 0);
}

#[test]
fn runs_open_and_close() {
    let key = [1u8; 32];
    let run: Vec<_> = (0..3).map(|idx| history(idx, format!("cmd {idx}"), &key)).collect();
    let plain = decrypt_run::<Sealed>(run.clone(), &key).unwrap();
    assert_eq!(plain[2].data.0, b"cmd 2");
    assert_eq!(encrypt_run::<Sealed>(plain, &key), run);
    assert_eq!(
        decrypt_run::<Sealed>(run, &[2u8; 32]),
        Err(String::from("the seal is broken"))
    );
}

#[test]
fn stored_manifest_is_the_version_and_its_json() {
    let data = PackManifestDataV1 { start_idx: 0, end_idx: 18446744073709551615 };
    let expected = "001{\"start_idx\":0,\"end_idx\":18446744073709551615}";
    let stored = EncryptedData::try_from(&data).unwrap();
    assert_eq!(stored.data, expected);
    assert_eq!(stored.content_encryption_key, "");
    assert_eq!(EncryptedData::try_from(&PackManifest::V1(data)).unwrap(), stored);
    let other = PackManifestDataV1 { start_idx: 1200, end_idx: 90 };
    assert_eq!(
        EncryptedData::try_from(&other).unwrap().data,
        "001{\"start_idx\":1200,\"end_idx\":90}"
    );
}

#[test]
fn a_stored_manifest_loads() {
    for (start_idx, end_idx) in [(0, 0), (7, 1234567), (0, u64::MAX)] {
        let body = PackManifest::body(&manifest(start_idx, end_idx)).unwrap();
        let loaded = PackManifest::from_body(parse(&body)).unwrap();
        assert_eq!(loaded, PackManifest::V1(PackManifestDataV1 { start_idx, end_idx }));
    }
}

#[test]
fn what_is_no_manifest() {
    let mut record = manifest(0, 1);
    record.tag = String::from("packfiles");
    let wrong_tag = PackManifest::body(&record).unwrap_err();
    assert_eq!(wrong_tag, LoadingError::WrongTag(String::from("packfiles")));
    assert_eq!(wrong_tag.message(), "\"packfiles\" is not a packfile tag");

    for data in ["", "00", "01{}", "0001", "\u{1f41a}001", "100{}"] {
        let mut record = manifest(0, 1);
        record.data.data = data.to_owned();
        let unknown = PackManifest::body(&record).unwrap_err();
        assert_eq!(unknown, LoadingError::UnknownVersion);
        assert_eq!(unknown.message(), "failed to find version bytes.");
    }

    let mut bare = manifest(0, 1);
    bare.data.data = String::from("001");
    assert_eq!(PackManifest::body(&bare).unwrap(), "");
    bare.data.data = String::from("001é{");
    assert_eq!(PackManifest::body(&bare).unwrap(), "é{");
    let malformed = PackManifest::from_body(Err(String::from("eof"))).unwrap_err();
    assert_eq!(malformed, LoadingError::MalformedBody(String::from("eof")));
    assert_eq!(malformed.message(), "invalid body: eof");
    assert_eq!(StoringError::InvalidBody(String::from("eof")).message(), "invalid body: eof");
}

#[test]
fn messages_of_transfer_errors() {
    let why = String::from("why");
    let loading = LoadingError::UnknownVersion;
    for (error, text) in [
        (
            UploadError::PackManifest(loading.clone()),
            "failed to load the packfile manifest: failed to find version bytes.",
        ),
        (
            UploadError::Store(why.clone()),
            "failed to read the history range from the store: why",
        ),
        (UploadError::Decrypt(why.clone()), "failed to decrypt a history record: why"),
        (
            UploadError::Pack(CodecError::Compress(why.clone())),
            "failed to pack the bundle: why",
        ),
        (UploadError::Api(why.clone()), "bundle upload failed: why"),
    ] {
        assert_eq!(error.message(), text);
    }
    for (error, text) in [
        (
            DownloadError::PackManifest(loading),
            "failed to load the packfile manifest: failed to find version bytes.",
        ),
        (DownloadError::Api(why.clone()), "bundle download failed: why"),
        (
            DownloadError::Unpack(CodecError::Decode(why.clone())),
            "failed to unpack the bundle: why",
        ),
        (DownloadError::Store(why), "failed to store the unpacked history: why"),
    ] {
        assert_eq!(error.message(), text);
    }
}

#[test]
fn batches_are_the_chunks_of_a_list() {
    for total in 0..40usize {
        let list: Vec<usize> = (0..total).collect();
        let mut from = 0;
        for chunk in list.chunks(8) {
            let batch = next_batch(from, total, 8).unwrap();
            assert_eq!(&list[batch.from..batch.to], chunk);
            from = batch.to;
        }
        assert_eq!(next_batch(from, total, 8), None);
    }
    assert_eq!(next_batch(8, 11, 8), Some(Batch { from: 8, to: 11 }));
}

#[test]
fn many_uploads_return_their_ids_in_order() {
    assert_eq!(UPLOAD_CONCURRENCY, 8);
    for total in [0usize, 1, 7, 8, 9, 16, 21] {
        let all: Vec<RecordId> = (0..total as u128).map(RecordId).collect();
        let mut state = UploadMany::begin(total);
        let mut batches = 0;
        while let UploadMany::Batch { batch, .. } = &state {
            let shipped = all[batch.from..batch.to].to_vec();
            assert!(shipped.len() <= 8);
            batches += 1;
            state = upload_packed_many(state, Ok(shipped));
        }
        assert_eq!(batches, total.div_ceil(8));
        match state {
            UploadMany::Done(Ok(ids)) => assert_eq!(ids, all),
            other => panic!("not done: {other:?}"),
        }
    }
}

#[test]
fn the_first_failed_batch_ends_many_uploads() {
    let state = UploadMany::begin(20);
    let state = upload_packed_many(state, Ok(vec![RecordId(1); 8]));
    let state = upload_packed_many(state, Err(UploadError::Api(String::from("down"))));
    match &state {
        UploadMany::Done(Err(e)) => assert_eq!(*e, UploadError::Api(String::from("down"))),
        other => panic!("not failed: {other:?}"),
    }
    let state = upload_packed_many(state, Ok(vec![]));
    assert!(matches!(state, UploadMany::Done(Err(_))));
}

#[test]
fn many_downloads_join_their_ids_in_order() {
    assert_eq!(DOWNLOAD_CONCURRENCY, 8);
    let total = 11usize;
    let lists: Vec<Vec<RecordId>> = (0..total as u128)
        .map(|i| (0..i % 3).map(|k| RecordId(10 * i + k)).collect())
        .collect();
    let mut state = DownloadMany::begin(total);
    while let DownloadMany::Batch { batch, .. } = &state {
        let some = lists[batch.from..batch.to].to_vec();
        state = download_packed_many(state, Ok(some));
    }
    match state {
        DownloadMany::Done(Ok(ids)) => assert_eq!(ids, lists.concat()),
        other => panic!("not done: {other:?}"),
    }

    let failed = DownloadError::Store(String::from("full"));
    let state = download_packed_many(DownloadMany::begin(3), Err(failed.clone()));
    match state {
        DownloadMany::Done(Err(e)) => assert_eq!(e, failed),
        other => panic!("not failed: {other:?}"),
    }
}
