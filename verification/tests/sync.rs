//! Sync: diffs, operations, and the transfers they ask for.

use atuin_client::history::HISTORY_TAG;
use atuin_client::packfile::codec::{pack, PackManifestRef};
use atuin_client::packfile::download::{
    download_packed, download_packed_many, DownloadError, DownloadEvent, DownloadMany,
    DownloadPacked,
};
use atuin_client::packfile::record::{PackManifestDataV1, PACKFILE_TAG, PACKFILE_VERSION};
use atuin_client::packfile::upload::UploadError;
use atuin_client::record::domain::{
    AdditionalData, DecryptedData, Diff, EncryptedData, Host, HostId, Record, RecordId,
};
use atuin_client::record::download::{sync_download, SyncDownload, SyncDownloadEvent};
use atuin_client::record::encryption::Encryption;
use atuin_client::record::status::RecordStatus;
use atuin_client::record::sync::{
    build_client, check_encryption_key, diff, operations, sync, sync_remote, BuildClient,
    BuildClientEvent, CheckKey, DiffEvent, DiffStores, Operation, SyncError, SyncEvent,
    SyncRemote, SyncState, TransferEvent,
};
use atuin_client::record::upload::{span_of, sync_upload, SyncUpload, SyncUploadEvent};
use uuid::Uuid;

/// A cipher for tests: what is sealed opens only under the same key and bound to the same values.
struct Sealed;

fn seal(ad: &AdditionalData<'_>, key: &[u8; 32]) -> String {
    format!("{:?}", (ad.id, ad.idx, ad.version, ad.tag, ad.host, key))
}

impl Encryption for Sealed {
    fn encrypt(data: DecryptedData, ad: AdditionalData<'_>, key: &[u8; 32]) -> EncryptedData {
        EncryptedData {
            data: data.0.iter().map(|byte| format!("{byte:02x}")).collect(),
            content_encryption_key: seal(&ad, key),
        }
    }

    fn decrypt(
        data: EncryptedData,
        ad: AdditionalData<'_>,
        key: &[u8; 32],
    ) -> Result<DecryptedData, String> {
        if data.content_encryption_key != seal(&ad, key) {
            return Err(String::from("the seal is broken"));
        }
        let digits: Vec<u8> =
            data.data.chars().map(|c| c.to_digit(16).unwrap() as u8).collect();
        Ok(DecryptedData(digits.chunks(2).map(|pair| pair[0] * 16 + pair[1]).collect()))
    }
}

fn uuid_v7() -> u128 {
    Uuid::now_v7().as_u128()
}

fn test_record() -> Record<EncryptedData> {
    Record {
        id: RecordId(uuid_v7()),
        idx: 0,
        host: Host::new(HostId(uuid_v7())),
        timestamp: 0,
        version: String::from("v1"),
        tag: Uuid::now_v7().simple().to_string(),
        data: EncryptedData { data: String::new(), content_encryption_key: String::new() },
    }
}

fn append(record: &Record<EncryptedData>, data: Vec<u8>) -> Record<EncryptedData> {
    Record {
        id: RecordId(uuid_v7()),
        idx: record.idx + 1,
        host: record.host.clone(),
        timestamp: 0,
        version: record.version.clone(),
        tag: record.tag.clone(),
        data: DecryptedData(data),
    }
    .encrypt::<Sealed>(&[0; 32])
}

/// A store of records in memory.
struct Store(Vec<Record<EncryptedData>>);

impl Store {
    fn push(&mut self, record: Record<EncryptedData>) {
        if self.0.iter().all(|known| known.id != record.id) {
            self.0.push(record);
        }
    }

    fn next(&self, host: HostId, tag: &str, start: u64, limit: u64) -> Vec<Record<EncryptedData>> {
        let mut run: Vec<Record<EncryptedData>> = self
            .0
            .iter()
            .filter(|r| r.host.id == host && r.tag == tag && r.idx >= start)
            .cloned()
            .collect();
        run.sort_by_key(|r| r.idx);
        run.truncate(limit as usize);
        run
    }

    fn last(&self, host: HostId, tag: &str) -> Option<Record<EncryptedData>> {
        self.next(host, tag, 0, u64::MAX).pop()
    }

    fn status(&self) -> RecordStatus {
        let mut status = RecordStatus::new();
        for record in &self.0 {
            let head = self.last(record.host.id, &record.tag).unwrap();
            status.set(record.host.id, record.tag.clone(), head.idx);
        }
        status
    }
}

fn build_test_diff(
    local_records: Vec<Record<EncryptedData>>,
    remote_records: Vec<Record<EncryptedData>>,
) -> Vec<Diff> {
    let mut local_store = Store(Vec::new());
    let mut remote_store = Store(Vec::new());
    for record in local_records {
        local_store.push(record);
    }
    for record in remote_records {
        remote_store.push(record);
    }
    local_store.status().diff(&remote_store.status())
}

#[test]
fn test_basic_diff() {
    // a diff where local is ahead of remote. nothing else.
    let record = test_record();
    let diff = build_test_diff(vec![record.clone()], vec![]);
    assert_eq!(diff.len(), 1);

    let operations = operations(diff).unwrap();
    assert_eq!(operations.len(), 1);
    assert_eq!(
        operations[0],
        Operation::Upload {
            host: record.host.id,
            tag: record.tag,
            local: record.idx,
            remote: None,
        }
    );
}

#[test]
fn build_two_way_diff() {
    // a diff where local is ahead of remote for one, and remote for
    // another. One upload, one download
    let shared_record = test_record();
    let remote_ahead = test_record();

    let local_ahead = append(&shared_record, vec![1, 2, 3]);
    assert_eq!(local_ahead.idx, 1);

    let local = vec![shared_record.clone(), local_ahead.clone()];
    let remote = vec![shared_record.clone(), remote_ahead.clone()];

    let operations = operations(build_test_diff(local, remote)).unwrap();
    assert_eq!(operations.len(), 2);
    assert_eq!(
        operations,
        vec![
            // Or in otherwords, local is ahead by one
            Operation::Upload {
                host: local_ahead.host.id,
                tag: local_ahead.tag,
                local: 1,
                remote: Some(0),
            },
            // Or in other words, remote knows of a record in an entirely new store (tag)
            Operation::Download {
                host: remote_ahead.host.id,
                tag: remote_ahead.tag,
                local: None,
                remote: 0,
            },
        ]
    );
}

#[test]
fn build_complex_diff() {
    // One shared, ahead but known only by remote
    // One known only by local
    // One known only by remote
    let shared_record = test_record();
    let local_only = test_record();

    let local_only_20 = test_record();
    let local_only_21 = append(&local_only_20, vec![1, 2, 3]);
    let local_only_22 = append(&local_only_21, vec![1, 2, 3]);
    let local_only_23 = append(&local_only_22, vec![1, 2, 3]);

    let remote_only = test_record();

    let remote_only_20 = test_record();
    let remote_only_21 = append(&remote_only_20, vec![2, 3, 2]);
    let remote_only_22 = append(&remote_only_21, vec![2, 3, 2]);
    let remote_only_23 = append(&remote_only_22, vec![2, 3, 2]);
    let remote_only_24 = append(&remote_only_23, vec![2, 3, 2]);

    let second_shared = test_record();
    let second_shared_remote_ahead = append(&second_shared, vec![1, 2, 3]);
    let second_shared_remote_ahead2 = append(&second_shared_remote_ahead, vec![1, 2, 3]);

    let third_shared = test_record();
    let third_shared_local_ahead = append(&third_shared, vec![1, 2, 3]);
    let third_shared_local_ahead2 = append(&third_shared_local_ahead, vec![1, 2, 3]);

    let fourth_shared = test_record();
    let fourth_shared_remote_ahead = append(&fourth_shared, vec![1, 2, 3]);
    let fourth_shared_remote_ahead2 = append(&fourth_shared_remote_ahead, vec![1, 2, 3]);

    let local = vec![
        shared_record.clone(),
        second_shared.clone(),
        third_shared.clone(),
        fourth_shared.clone(),
        fourth_shared_remote_ahead.clone(),
        // single store, only local has it
        local_only.clone(),
        // bigger store, also only known by local
        local_only_20.clone(),
        local_only_21.clone(),
        local_only_22.clone(),
        local_only_23.clone(),
        // another shared store, but local is ahead on this one
        third_shared_local_ahead.clone(),
        third_shared_local_ahead2.clone(),
    ];

    let remote = vec![
        remote_only.clone(),
        remote_only_20.clone(),
        remote_only_21.clone(),
        remote_only_22.clone(),
        remote_only_23.clone(),
        remote_only_24.clone(),
        shared_record.clone(),
        second_shared.clone(),
        third_shared.clone(),
        second_shared_remote_ahead.clone(),
        second_shared_remote_ahead2.clone(),
        fourth_shared.clone(),
        fourth_shared_remote_ahead.clone(),
        fourth_shared_remote_ahead2.clone(),
    ];

    let operations = operations(build_test_diff(local, remote)).unwrap();
    assert_eq!(operations.len(), 7);

    let mut result_ops = vec![
        // We started with a shared record, but the remote knows of two newer records in the
        // same store
        Operation::Download {
            local: Some(0),
            remote: 2,
            host: second_shared_remote_ahead.host.id,
            tag: second_shared_remote_ahead.tag,
        },
        // We have a shared record, local knows of the first two but not the last
        Operation::Download {
            local: Some(1),
            remote: 2,
            host: fourth_shared_remote_ahead2.host.id,
            tag: fourth_shared_remote_ahead2.tag,
        },
        // Remote knows of a store with a single record that local does not have
        Operation::Download {
            local: None,
            remote: 0,
            host: remote_only.host.id,
            tag: remote_only.tag,
        },
        // Remote knows of a store with a bunch of records that local does not have
        Operation::Download {
            local: None,
            remote: 4,
            host: remote_only_20.host.id,
            tag: remote_only_20.tag,
        },
        // Local knows of a record in a store that remote does not have
        Operation::Upload {
            local: 0,
            remote: None,
            host: local_only.host.id,
            tag: local_only.tag,
        },
        // Local knows of 4 records in a store that remote does not have
        Operation::Upload {
            local: 3,
            remote: None,
            host: local_only_20.host.id,
            tag: local_only_20.tag,
        },
        // Local knows of 2 more records in a shared store that remote only has one of
        Operation::Upload {
            local: 2,
            remote: Some(0),
            host: third_shared.host.id,
            tag: third_shared.tag,
        },
    ];

    result_ops.sort_by_key(|op| match op {
        Operation::Noop { host, tag } => (0, *host, tag.clone()),
        Operation::Upload { host, tag, .. } => (1, *host, tag.clone()),
        Operation::Download { host, tag, .. } => (2, *host, tag.clone()),
    });

    assert_eq!(result_ops, operations);
}

fn given(host: u128, tag: &str, local: Option<u64>, remote: Option<u64>) -> Diff {
    Diff { host: HostId(host), tag: tag.to_owned(), local, remote }
}

fn kinds(ops: &[Operation]) -> Vec<(char, u128, &str)> {
    ops.iter()
        .map(|op| match op {
            Operation::Noop { host, tag } => ('n', host.0, tag.as_str()),
            Operation::Upload { host, tag, .. } => ('u', host.0, tag.as_str()),
            Operation::Download { host, tag, .. } => ('d', host.0, tag.as_str()),
        })
        .collect()
}

#[test]
fn the_order_of_operations() {
    let diffs = vec![
        given(2, "alias", None, Some(3)),
        given(1, "history", None, Some(3)),
        given(1, "packfile", Some(1), Some(3)),
        given(2, "packfile", Some(1), None),
        given(2, "history", Some(9), Some(8)),
        given(3, "zsh", Some(4), Some(4)),
        given(1, "alias", Some(2), Some(5)),
        given(1, "zsh", Some(5), Some(5)),
    ];
    let ordered = vec![
        ('n', 1, "zsh"),
        ('n', 3, "zsh"),
        ('u', 2, "history"),
        ('u', 2, "packfile"),
        ('d', 1, "packfile"),
        ('d', 1, "alias"),
        ('d', 1, "history"),
        ('d', 2, "alias"),
    ];
    assert_eq!(kinds(&operations(diffs.clone()).unwrap()), ordered);
    let mut turned = diffs;
    for _ in 0..turned.len() {
        turned.rotate_left(3);
        turned.swap(0, 5);
        assert_eq!(kinds(&operations(turned.clone()).unwrap()), ordered);
    }
}

#[test]
fn equal_operations_keep_their_order() {
    let diffs = vec![
        given(1, "t", Some(7), None),
        given(1, "t", Some(3), None),
        given(1, "t", Some(5), None),
    ];
    let locals: Vec<u64> = operations(diffs)
        .unwrap()
        .into_iter()
        .map(|op| match op {
            Operation::Upload { local, .. } => local,
            other => panic!("no upload: {other:?}"),
        })
        .collect();
    assert_eq!(locals, vec![7, 3, 5]);
}

#[test]
fn a_diff_of_nothing_is_an_error() {
    let diffs = vec![given(1, "a", Some(1), None), given(1, "b", None, None)];
    let error = operations(diffs).unwrap_err();
    let msg = String::from("diff has nothing for local or remote - (host, tag) does not exist");
    assert_eq!(error, SyncError::SyncLogicError { msg });
    assert_eq!(operations(vec![]), Ok(vec![]));
}

#[test]
fn stores_differ_where_their_heads_do() {
    let mut local = RecordStatus::new();
    let mut remote = RecordStatus::new();
    for (host, tag, idx) in [(2, "b", 1), (1, "z", 4), (1, "a", 9), (3, "same", 5)] {
        local.set(HostId(host), tag.to_owned(), idx);
    }
    for (host, tag, idx) in [(3, "same", 5), (1, "z", 6), (9, "only", 0), (2, "b", 0)] {
        remote.set(HostId(host), tag.to_owned(), idx);
    }
    local.set(HostId(1), String::from("a"), 10);
    assert_eq!(local.len(), 4);
    assert_eq!(local.get(HostId(1), "a"), Some(10));
    assert_eq!(local.get(HostId(1), "b"), None);
    assert_eq!(
        local.diff(&remote),
        vec![
            given(1, "a", Some(10), None),
            given(1, "z", Some(4), Some(6)),
            given(2, "b", Some(1), Some(0)),
            given(9, "only", None, Some(0)),
        ]
    );
    assert_eq!(local.diff(&local), vec![]);
    let ops = operations(local.diff(&remote)).unwrap();
    assert_eq!(
        kinds(&ops),
        vec![('u', 1, "a"), ('u', 2, "b"), ('d', 1, "z"), ('d', 9, "only")]
    );
}

#[test]
fn diffing_reads_both_stores() {
    let why = String::from("why");
    let mut local = RecordStatus::new();
    local.set(HostId(1), String::from("t"), 3);
    let remote = RecordStatus::new();

    let state = diff(DiffStores::ReadLocal, DiffEvent::LocalRead(Ok(local.clone())));
    match diff(state, DiffEvent::RemoteRead(Ok(remote.clone()))) {
        DiffStores::Done(Ok((diffs, index))) => {
            assert_eq!(diffs, vec![given(1, "t", Some(3), None)]);
            assert_eq!(index, remote);
        }
        other => panic!("not done: {other:?}"),
    }

    match diff(DiffStores::ReadLocal, DiffEvent::LocalRead(Err(why.clone()))) {
        DiffStores::Done(Err(e)) => {
            assert_eq!(e, SyncError::LocalStoreError { msg: why.clone() })
        }
        other => panic!("not failed: {other:?}"),
    }
    match diff(DiffStores::ReadRemote { local }, DiffEvent::RemoteRead(Err(why.clone()))) {
        DiffStores::Done(Err(e)) => assert_eq!(e, SyncError::RemoteRequestError { msg: why }),
        other => panic!("not failed: {other:?}"),
    }
}

#[test]
fn building_a_client() {
    type State = BuildClient<u8, char>;
    let why = String::from("why");
    let state: State = BuildClient::FetchToken;
    let state = build_client(state, BuildClientEvent::TokenFetched(Ok(7)));
    assert!(matches!(state, BuildClient::Connect(7)));
    let state = build_client(state, BuildClientEvent::Connected(Ok('c')));
    assert!(matches!(state, BuildClient::Done(Ok('c'))));

    let state: State = BuildClient::FetchToken;
    match build_client(state, BuildClientEvent::TokenFetched(Err(why.clone()))) {
        BuildClient::Done(Err(e)) => {
            assert_eq!(e, SyncError::RemoteRequestError { msg: why.clone() })
        }
        other => panic!("not failed: {other:?}"),
    }
    let state: State = BuildClient::Connect(7);
    match build_client(state, BuildClientEvent::Connected(Err(why.clone()))) {
        BuildClient::Done(Err(e)) => assert_eq!(e, SyncError::OperationalError { msg: why }),
        other => panic!("not failed: {other:?}"),
    }
    let state: State = BuildClient::FetchToken;
    let state = build_client(state, BuildClientEvent::Connected(Ok('c')));
    assert!(matches!(state, BuildClient::FetchToken));
}

#[test]
fn messages_of_sync_errors() {
    let msg = String::from("a \"b\"\n");
    for (error, text) in [
        (
            SyncError::LocalAheadOtherHost,
            "the local store is ahead of the remote, but for another host. has remote lost data?",
        ),
        (
            SyncError::LocalStoreError { msg: msg.clone() },
            "an issue with the local database occurred: \"a \\\"b\\\"\\n\"",
        ),
        (
            SyncError::SyncLogicError { msg: msg.clone() },
            "something has gone wrong with the sync logic: \"a \\\"b\\\"\\n\"",
        ),
        (
            SyncError::OperationalError { msg: msg.clone() },
            "operational error: \"a \\\"b\\\"\\n\"",
        ),
        (
            SyncError::RemoteRequestError { msg },
            "a request to the sync server failed: \"a \\\"b\\\"\\n\"",
        ),
        (
            SyncError::WrongKey,
            "the encryption key on this machine does not match the data on the server. \
             this usually means a new machine was set up without copying the existing key. \
             to fix: run `atuin key` on a machine that already syncs correctly, then run \
             `atuin store rekey <key>` on this machine with the value from the other machine",
        ),
    ] {
        assert_eq!(error.message(), text);
    }
}

fn history(host: HostId, idx: u64, key: &[u8; 32]) -> Record<EncryptedData> {
    Record {
        id: RecordId(uuid_v7()),
        idx,
        host: Host::new(host),
        timestamp: 0,
        version: String::from("v1"),
        tag: HISTORY_TAG.to_owned(),
        data: DecryptedData(format!("cmd {idx}").into_bytes()),
    }
    .encrypt::<Sealed>(key)
}

fn manifest(host: HostId, idx: u64, start_idx: u64, end_idx: u64) -> Record<EncryptedData> {
    Record {
        id: RecordId(uuid_v7()),
        idx,
        host: Host::new(host),
        timestamp: 0,
        version: PACKFILE_VERSION.to_owned(),
        tag: PACKFILE_TAG.to_owned(),
        data: EncryptedData::try_from(&PackManifestDataV1 { start_idx, end_idx }).unwrap(),
    }
}

/// A server with records and bundles, which remembers what it was asked for.
struct Server {
    records: Vec<Record<EncryptedData>>,
    bundles: Vec<(RecordId, Vec<u8>)>,
    asked: Vec<(String, u64)>,
}

impl Server {
    /// A server with the manifest of a packed run of `count` commands, and the ids of the run.
    fn with_bundle(host: HostId, count: u64, key: &[u8; 32]) -> (Server, Vec<RecordId>) {
        let run: Vec<Record<EncryptedData>> =
            (0..count).map(|idx| history(host, idx, key)).collect();
        let ids = run.iter().map(|r| r.id).collect();
        let manifest = manifest(host, 0, 0, count - 1);
        let decrypted: Vec<Record<DecryptedData>> =
            run.into_iter().map(|r| r.decrypt::<Sealed>(key).unwrap()).collect();
        let blob = pack::<Sealed>(&decrypted, &PackManifestRef::from(&manifest), key).unwrap();
        let bundles = vec![(manifest.id, blob)];
        (Server { records: vec![manifest], bundles, asked: Vec::new() }, ids)
    }

    fn next(&mut self, host: HostId, tag: &str, start: u64, limit: u64) -> Vec<Record<EncryptedData>> {
        self.asked.push((tag.to_owned(), start));
        Store(self.records.clone()).next(host, tag, start, limit)
    }
}

fn expand(
    page: &[Record<EncryptedData>],
    store: &mut Store,
    server: &Server,
    key: &[u8; 32],
) -> Result<Vec<RecordId>, DownloadError> {
    let mut many = DownloadMany::begin(page.len());
    while let DownloadMany::Batch { batch, .. } = &many {
        let mut lists = Ok(Vec::new());
        for manifest in &page[batch.from..batch.to] {
            let mut state = DownloadPacked::begin(manifest);
            loop {
                let event = match &state {
                    DownloadPacked::ParseManifest { body, .. } => {
                        let value: serde_json::Value = serde_json::from_str(body).unwrap();
                        DownloadEvent::ManifestParsed(Ok(PackManifestDataV1 {
                            start_idx: value["start_idx"].as_u64().unwrap(),
                            end_idx: value["end_idx"].as_u64().unwrap(),
                        }))
                    }
                    DownloadPacked::ReadHead { host, tag, .. } => {
                        DownloadEvent::HeadRead(Ok(store.last(*host, tag).map(|r| r.idx)))
                    }
                    DownloadPacked::ReadLocal { host, tag, start, count, .. } => {
                        DownloadEvent::LocalRead(Ok(store.next(*host, tag, *start, *count)))
                    }
                    DownloadPacked::FetchUrl { manifest_ref } => {
                        DownloadEvent::UrlFetched(Ok(manifest_ref.id.0.to_string()))
                    }
                    DownloadPacked::FetchBlob { url, .. } => {
                        let found = server.bundles.iter().find(|(id, _)| id.0.to_string() == *url);
                        DownloadEvent::BlobFetched(match found {
                            Some((_, blob)) => Ok(blob.clone()),
                            None => Err(String::from("404")),
                        })
                    }
                    DownloadPacked::StoreHistory { records, .. } => {
                        for record in records {
                            store.push(record.clone());
                        }
                        DownloadEvent::HistoryStored(Ok(()))
                    }
                    DownloadPacked::Done(_) => break,
                };
                state = download_packed::<Sealed>(state, event, key);
            }
            match (state, &mut lists) {
                (DownloadPacked::Done(Ok(ids)), Ok(all)) => all.push(ids),
                (DownloadPacked::Done(Err(e)), _) => {
                    lists = Err(e);
                    break;
                }
                other => panic!("not done: {other:?}"),
            }
        }
        many = download_packed_many(many, lists);
    }
    match many {
        DownloadMany::Done(res) => res,
        other => panic!("not done: {other:?}"),
    }
}

fn drive_download(
    store: &mut Store,
    server: &mut Server,
    host: HostId,
    tag: &str,
    local: Option<u64>,
    remote: u64,
    key: &[u8; 32],
) -> Result<Vec<RecordId>, SyncError> {
    let mut state = SyncDownload::begin(host, tag.to_owned(), local, remote, 100);
    loop {
        let event = match &state {
            SyncDownload::ReadLast { host, tag, .. } => {
                SyncDownloadEvent::LastRead(Ok(store.last(*host, tag).map(|r| r.idx)))
            }
            SyncDownload::FetchPage { job, start, .. } => SyncDownloadEvent::PageFetched(Ok(
                server.next(job.host, &job.tag, *start, job.page_size),
            )),
            SyncDownload::ExpandBundles { page, .. } => {
                SyncDownloadEvent::BundlesExpanded(expand(page, store, server, key))
            }
            SyncDownload::StorePage { page, .. } => {
                for record in page {
                    store.push(record.clone());
                }
                SyncDownloadEvent::PageStored(Ok(()))
            }
            SyncDownload::Done(_) => break,
        };
        state = sync_download(state, event);
    }
    match state {
        SyncDownload::Done(res) => res,
        other => panic!("not done: {other:?}"),
    }
}

#[test]
fn sync_download_expands_packfile_manifests_into_history() {
    let key = [4u8; 32];
    let host = HostId(uuid_v7());
    let (mut server, _) = Server::with_bundle(host, 3, &key);
    let mut down = Store(Vec::new());

    drive_download(&mut down, &mut server, host, PACKFILE_TAG, None, 1, &key).unwrap();

    // The manifest is stored AND the history it covers was populated.
    assert!(down.last(host, PACKFILE_TAG).is_some());
    assert_eq!(down.next(host, HISTORY_TAG, 0, 3).len(), 3);
}

#[test]
fn sync_download_returns_expanded_history_ids_for_indexing() {
    let key = [6u8; 32];
    let host = HostId(uuid_v7());
    let (mut server, history_ids) = Server::with_bundle(host, 3, &key);
    let manifest_id = server.records[0].id;
    let mut down = Store(Vec::new());

    let returned =
        drive_download(&mut down, &mut server, host, PACKFILE_TAG, None, 1, &key).unwrap();

    for id in &history_ids {
        assert!(
            returned.contains(id),
            "expanded history id {id:?} must be returned for indexing"
        );
    }
    assert_eq!(returned[..3], history_ids[..]);
    assert_eq!(returned[3..], [manifest_id]);
}

#[test]
fn history_download_skips_the_range_a_bundle_covered() {
    let key = [5u8; 32];
    let host = HostId(uuid_v7());
    let (mut server, _) = Server::with_bundle(host, 3, &key);
    let mut down = Store(Vec::new());

    // Packfile op first (populates history 0..=2), then the history op.
    drive_download(&mut down, &mut server, host, PACKFILE_TAG, None, 1, &key).unwrap();
    drive_download(&mut down, &mut server, host, HISTORY_TAG, None, 3, &key).unwrap();

    // The history download must have started AFTER the bundled prefix (idx 2), i.e. never
    // requested start=0 for HISTORY_TAG.
    let requested_history_start_0 =
        server.asked.iter().any(|(tag, start)| tag == HISTORY_TAG && *start == 0);
    assert!(
        !requested_history_start_0,
        "bundled history range must not be re-requested loose"
    );
    assert_eq!(server.asked.last(), Some(&(HISTORY_TAG.to_owned(), 2)));
}

#[test]
fn sync_download_does_not_underflow_when_local_head_exceeds_remote() {
    let key = [7u8; 32];
    let host = HostId(uuid_v7());
    // Local store already has HISTORY [0..=4] (head idx 4).
    let mut down = Store(Vec::new());
    for idx in 0..5u64 {
        down.push(history(host, idx, &key));
    }
    // Server that returns empty for any record page (nothing new to fetch).
    let mut server = Server { records: vec![], bundles: vec![], asked: vec![] };

    // remote (2) is BEHIND the live local head (4) -- must not underflow/panic.
    let got =
        drive_download(&mut down, &mut server, host, HISTORY_TAG, Some(0), 2, &key).unwrap();
    assert!(got.is_empty(), "nothing to download when local head already exceeds remote");
}

#[test]
fn a_failed_expansion_leaves_the_manifests_unstored() {
    let key = [4u8; 32];
    let host = HostId(uuid_v7());
    let (mut server, _) = Server::with_bundle(host, 3, &key);
    server.bundles.clear();
    let mut down = Store(Vec::new());
    let failed =
        drive_download(&mut down, &mut server, host, PACKFILE_TAG, None, 1, &key).unwrap_err();
    let msg = String::from("bundle download failed: 404");
    assert_eq!(failed, SyncError::RemoteRequestError { msg });
    assert_eq!(down.0.len(), 0);
}

#[test]
fn pages_follow_one_another() {
    let key = [4u8; 32];
    let host = HostId(uuid_v7());
    let mut server = Server { records: vec![], bundles: vec![], asked: vec![] };
    for idx in 0..250u64 {
        server.records.push(history(host, idx, &key));
    }
    let mut down = Store(Vec::new());
    let got =
        drive_download(&mut down, &mut server, host, HISTORY_TAG, None, 249, &key).unwrap();
    let starts: Vec<u64> = server.asked.iter().map(|(_, start)| *start).collect();
    assert_eq!(starts, vec![0, 100, 200]);
    assert_eq!(got, server.records.iter().map(|r| r.id).collect::<Vec<_>>());
    assert_eq!(down.0, server.records);
}

#[test]
fn failures_of_a_download() {
    let why = String::from("why");
    let host = HostId(1);
    let begin = || SyncDownload::begin(host, String::from("t"), Some(3), 9, 100);
    let fetch = || sync_download(begin(), SyncDownloadEvent::LastRead(Ok(None)));
    let store = || sync_download(fetch(), SyncDownloadEvent::PageFetched(Ok(vec![test_record()])));
    let failed = |state: SyncDownload, event: SyncDownloadEvent| {
        match sync_download(state, event) {
            SyncDownload::Done(Err(e)) => e,
            other => panic!("no failure: {other:?}"),
        }
    };
    assert_eq!(
        failed(begin(), SyncDownloadEvent::LastRead(Err(why.clone()))),
        SyncError::LocalStoreError { msg: why.clone() }
    );
    assert_eq!(
        failed(fetch(), SyncDownloadEvent::PageFetched(Err(why.clone()))),
        SyncError::RemoteRequestError { msg: why.clone() }
    );
    assert_eq!(
        failed(store(), SyncDownloadEvent::PageStored(Err(why.clone()))),
        SyncError::LocalStoreError { msg: why }
    );
    match fetch() {
        SyncDownload::FetchPage { job, start, ids } => {
            assert_eq!((job.local, job.expected, job.progress), (3, 7, 0));
            assert_eq!((start, ids.len()), (3, 0));
        }
        other => panic!("not fetching: {other:?}"),
    }
    let further = sync_download(begin(), SyncDownloadEvent::LastRead(Ok(Some(7))));
    assert!(matches!(further, SyncDownload::FetchPage { start: 7, .. }));
    let behind = sync_download(begin(), SyncDownloadEvent::LastRead(Ok(Some(1))));
    assert!(matches!(behind, SyncDownload::FetchPage { start: 3, .. }));
}

/// What an upload did, in order.
#[derive(Debug, PartialEq)]
enum Did {
    Ship(usize),
    Post(Vec<u64>),
}

fn drive_upload(
    store: &Store,
    host: HostId,
    tag: &str,
    local: u64,
    remote: Option<u64>,
    did: &mut Vec<Did>,
) -> Result<i64, SyncError> {
    let mut state = SyncUpload::begin(host, tag.to_owned(), local, remote, 2);
    loop {
        let event = match &state {
            SyncUpload::ReadPage { job, start } => SyncUploadEvent::PageRead(Ok(store.next(
                job.host,
                &job.tag,
                *start,
                job.page_size,
            ))),
            SyncUpload::ShipBundles { page, .. } => {
                did.push(Did::Ship(page.len()));
                SyncUploadEvent::BundlesShipped(Ok(vec![RecordId(0); page.len()]))
            }
            SyncUpload::PostRecords { page, .. } => {
                did.push(Did::Post(page.iter().map(|r| r.idx).collect()));
                SyncUploadEvent::RecordsPosted(Ok(()))
            }
            SyncUpload::Done(_) => break,
        };
        state = sync_upload(state, event);
    }
    match state {
        SyncUpload::Done(res) => res,
        other => panic!("not done: {other:?}"),
    }
}

#[test]
fn history_uploads_page_by_page() {
    let key = [1u8; 32];
    let host = HostId(1);
    let store = Store((0..6u64).map(|idx| history(host, idx, &key)).collect());
    let mut did = Vec::new();
    assert_eq!(drive_upload(&store, host, HISTORY_TAG, 5, None, &mut did), Ok(6));
    assert_eq!(did, vec![Did::Post(vec![0, 1]), Did::Post(vec![2, 3]), Did::Post(vec![4, 5])]);
    let mut did = Vec::new();
    assert_eq!(drive_upload(&store, host, HISTORY_TAG, 5, Some(2), &mut did), Ok(4));
    assert_eq!(did, vec![Did::Post(vec![2, 3]), Did::Post(vec![4, 5])]);
    let mut did = Vec::new();
    assert_eq!(drive_upload(&store, host, "other", 5, Some(2), &mut did), Ok(0));
    assert_eq!(did, vec![]);
}

#[test]
fn bundles_are_shipped_before_their_manifests() {
    let host = HostId(1);
    let store = Store((0..3u64).map(|idx| manifest(host, idx, idx, idx)).collect());
    let mut did = Vec::new();
    assert_eq!(drive_upload(&store, host, PACKFILE_TAG, 2, None, &mut did), Ok(3));
    assert_eq!(
        did,
        vec![Did::Ship(2), Did::Post(vec![0, 1]), Did::Ship(1), Did::Post(vec![2])]
    );
}

#[test]
fn an_upload_reaches_the_local_head() {
    let key = [1u8; 32];
    let host = HostId(1);
    for (head, remote, page_size) in
        [(1, None, 1), (1, Some(0), 1), (3, None, 2), (4, Some(2), 1), (0, None, 1), (5, Some(5), 1)]
    {
        let store = Store((0..=head).map(|idx| history(host, idx, &key)).collect());
        let mut state = SyncUpload::begin(host, HISTORY_TAG.to_owned(), head, remote, page_size);
        let mut sent = Vec::new();
        let count = loop {
            let event = match &state {
                SyncUpload::ReadPage { job, start } => SyncUploadEvent::PageRead(Ok(store.next(
                    job.host,
                    &job.tag,
                    *start,
                    job.page_size,
                ))),
                SyncUpload::PostRecords { page, .. } => {
                    sent.extend(page.iter().map(|r| r.idx));
                    SyncUploadEvent::RecordsPosted(Ok(()))
                }
                SyncUpload::Done(Ok(count)) => break *count,
                other => panic!("unexpected: {other:?}"),
            };
            state = sync_upload(state, event);
        };
        let expected: Vec<u64> = (remote.unwrap_or(0)..=head).collect();
        assert_eq!((count, sent), (expected.len() as i64, expected));
    }
}

#[test]
fn a_download_reaches_the_remote_head() {
    let key = [1u8; 32];
    let host = HostId(1);
    for (local, remote, page_size) in
        [(None, 1u64, 1), (Some(0u64), 1, 1), (None, 3, 2), (Some(2), 4, 1), (None, 0, 1)]
    {
        let all: Vec<_> = (0..=remote).map(|idx| history(host, idx, &key)).collect();
        let server = Store(all.clone());
        let mut state =
            SyncDownload::begin(host, HISTORY_TAG.to_owned(), local, remote, page_size);
        let got = loop {
            let event = match &state {
                SyncDownload::ReadLast { .. } => SyncDownloadEvent::LastRead(Ok(local)),
                SyncDownload::FetchPage { job, start, .. } => SyncDownloadEvent::PageFetched(Ok(
                    server.next(job.host, &job.tag, *start, job.page_size),
                )),
                SyncDownload::StorePage { .. } => SyncDownloadEvent::PageStored(Ok(())),
                SyncDownload::Done(Ok(ids)) => break ids.clone(),
                other => panic!("unexpected: {other:?}"),
            };
            state = sync_download(state, event);
        };
        let from = local.unwrap_or(0) as usize;
        assert_eq!(got, all[from..].iter().map(|r| r.id).collect::<Vec<_>>());
    }
}

#[test]
fn counting_the_records_of_a_transfer() {
    assert_eq!(span_of(0, 0), 1);
    assert_eq!(span_of(3, 9), 7);
    assert_eq!(span_of(4, 2), 0);
    assert_eq!(span_of(1, u64::MAX), u64::MAX);
    assert_eq!(span_of(0, u64::MAX), u64::MAX);
}

#[test]
fn failures_of_an_upload() {
    let why = String::from("why");
    let begin = |tag: &str| SyncUpload::begin(HostId(1), tag.to_owned(), 5, None, 100);
    let page = || SyncUploadEvent::PageRead(Ok(vec![test_record()]));
    let failed = |state: SyncUpload, event: SyncUploadEvent| match sync_upload(state, event) {
        SyncUpload::Done(Err(e)) => e,
        other => panic!("no failure: {other:?}"),
    };
    assert_eq!(
        failed(begin("t"), SyncUploadEvent::PageRead(Err(why.clone()))),
        SyncError::LocalStoreError { msg: why.clone() }
    );
    assert_eq!(
        failed(
            sync_upload(begin("packfile"), page()),
            SyncUploadEvent::BundlesShipped(Err(UploadError::Store(why.clone())))
        ),
        SyncError::RemoteRequestError {
            msg: String::from("failed to read the history range from the store: why")
        }
    );
    assert_eq!(
        failed(
            sync_upload(begin("t"), page()),
            SyncUploadEvent::RecordsPosted(Err(why.clone()))
        ),
        SyncError::RemoteRequestError { msg: why }
    );
}

#[test]
fn operations_are_carried_out_in_order() {
    let up = |tag: &str| Operation::Upload {
        local: 1,
        remote: None,
        host: HostId(1),
        tag: tag.to_owned(),
    };
    let down = |tag: &str| Operation::Download {
        local: None,
        remote: 1,
        host: HostId(1),
        tag: tag.to_owned(),
    };
    let noop = Operation::Noop { host: HostId(1), tag: String::from("n") };
    let ops = vec![noop.clone(), up("a"), noop.clone(), up("b"), down("c"), down("d"), noop.clone()];
    let mut state = SyncRemote::begin(ops.clone());
    let mut seen = Vec::new();
    while let SyncRemote::Transfer { op, .. } = &state {
        seen.push(op.clone());
        let event = match op {
            Operation::Upload { .. } => TransferEvent::Uploaded(Ok(10)),
            _ => TransferEvent::Downloaded(Ok(vec![RecordId(seen.len() as u128)])),
        };
        state = sync_remote(state, event);
    }
    assert_eq!(seen, vec![up("a"), up("b"), down("c"), down("d")]);
    match state {
        SyncRemote::Done(Ok((uploaded, downloaded))) => {
            assert_eq!(uploaded, 20);
            assert_eq!(downloaded, vec![RecordId(3), RecordId(4)]);
        }
        other => panic!("not done: {other:?}"),
    }

    let state = sync_remote(SyncRemote::begin(ops), TransferEvent::Uploaded(Ok(1)));
    let state = sync_remote(state, TransferEvent::Uploaded(Err(SyncError::WrongKey)));
    assert!(matches!(state, SyncRemote::Done(Err(SyncError::WrongKey))));
    let empty = SyncRemote::begin(vec![noop]);
    assert!(matches!(empty, SyncRemote::Done(Ok((0, _)))));
}

#[test]
fn the_key_is_checked_on_one_record() {
    let key = [1u8; 32];
    let host = HostId(5);
    let mut index = RecordStatus::new();
    assert!(matches!(CheckKey::begin(&index), CheckKey::Done(Ok(()))));
    index.set(host, HISTORY_TAG.to_owned(), 3);
    let begin = || CheckKey::begin(&index);
    match begin() {
        CheckKey::FetchSample { host: at, tag, start, limit } => {
            assert_eq!((at, tag.as_str(), start, limit), (host, "history", 0, 1));
        }
        other => panic!("no sample: {other:?}"),
    }
    // A manifest is plain text and says nothing of the key: it is sampled only where there is
    // nothing else, and then any key will do, but a request that fails is still an error.
    let mut manifests = RecordStatus::new();
    manifests.set(host, PACKFILE_TAG.to_owned(), 0);
    match CheckKey::begin(&manifests) {
        CheckKey::FetchSample { host: at, tag, start, limit } => {
            assert_eq!((at, tag.as_str(), start, limit), (host, "packfile", 0, 1));
        }
        other => panic!("no sample: {other:?}"),
    }
    for fetched in [vec![manifest(host, 0, 0, 4)], vec![]] {
        let checked =
            check_encryption_key::<Sealed>(CheckKey::begin(&manifests), Ok(fetched), &key);
        assert!(matches!(checked, CheckKey::Done(Ok(()))));
    }
    let down = Err(String::from("down"));
    match check_encryption_key::<Sealed>(CheckKey::begin(&manifests), down, &key) {
        CheckKey::Done(Err(e)) => {
            assert_eq!(e, SyncError::RemoteRequestError { msg: String::from("down") });
        }
        other => panic!("not failed: {other:?}"),
    }
    manifests.set(HostId(6), String::from("kv"), 0);
    match CheckKey::begin(&manifests) {
        CheckKey::FetchSample { host, tag, .. } => {
            assert_eq!((host, tag.as_str()), (HostId(6), "kv"));
        }
        other => panic!("no sample: {other:?}"),
    }
    let record = history(host, 0, &key);
    let checked = |fetched, key: &[u8; 32]| {
        match check_encryption_key::<Sealed>(begin(), fetched, key) {
            CheckKey::Done(res) => res,
            other => panic!("not done: {other:?}"),
        }
    };
    assert_eq!(checked(Ok(vec![record.clone()]), &key), Ok(()));
    assert_eq!(checked(Ok(vec![record]), &[2u8; 32]), Err(SyncError::WrongKey));
    assert_eq!(checked(Ok(vec![]), &[2u8; 32]), Ok(()));
    assert_eq!(
        checked(Err(String::from("down")), &key),
        Err(SyncError::RemoteRequestError { msg: String::from("down") })
    );
}

#[test]
fn a_sync_from_end_to_end() {
    let found = || Ok((vec![given(1, "t", Some(3), Some(1))], RecordStatus::new()));
    let state = sync(SyncState::Connect, SyncEvent::Connected(Ok(())));
    let state = sync(state, SyncEvent::Diffed(found()));
    let state = sync(state, SyncEvent::KeyChecked(Ok(())));
    match &state {
        SyncState::Transfer { operations, page_size } => {
            let upload = Operation::Upload {
                local: 3,
                remote: Some(1),
                host: HostId(1),
                tag: String::from("t"),
            };
            assert_eq!(*operations, vec![upload]);
            assert_eq!(*page_size, 100);
        }
        other => panic!("no transfer: {other:?}"),
    }
    match sync(state, SyncEvent::Transferred(Ok((2, vec![RecordId(8)])))) {
        SyncState::Done(Ok((uploaded, downloaded))) => {
            assert_eq!((uploaded, downloaded), (2, vec![RecordId(8)]));
        }
        other => panic!("not done: {other:?}"),
    }
}

#[test]
fn a_sync_with_the_wrong_key_moves_nothing() {
    let found = Ok((vec![given(1, "t", Some(3), Some(1))], RecordStatus::new()));
    let state = sync(SyncState::Diff, SyncEvent::Diffed(found));
    let state = sync(state, SyncEvent::KeyChecked(Err(SyncError::WrongKey)));
    assert!(matches!(state, SyncState::Done(Err(SyncError::WrongKey))));
    let state = sync(state, SyncEvent::KeyChecked(Ok(())));
    assert!(matches!(state, SyncState::Done(Err(SyncError::WrongKey))));
}

#[test]
fn a_sync_ends_with_the_first_failure() {
    let why = || SyncError::OperationalError { msg: String::from("why") };
    let state = sync(SyncState::Connect, SyncEvent::Connected(Err(why())));
    assert!(matches!(state, SyncState::Done(Err(SyncError::OperationalError { .. }))));
    let state = sync(SyncState::Diff, SyncEvent::Diffed(Err(why())));
    assert!(matches!(state, SyncState::Done(Err(SyncError::OperationalError { .. }))));
    let state = SyncState::Transfer { operations: vec![], page_size: 100 };
    let state = sync(state, SyncEvent::Transferred(Err(why())));
    assert!(matches!(state, SyncState::Done(Err(SyncError::OperationalError { .. }))));
    let empty = Ok((vec![given(1, "t", None, None)], RecordStatus::new()));
    let state = sync(sync(SyncState::Diff, SyncEvent::Diffed(empty)), SyncEvent::KeyChecked(Ok(())));
    assert!(matches!(state, SyncState::Done(Err(SyncError::SyncLogicError { .. }))));
}
