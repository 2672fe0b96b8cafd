//! Sync: from the difference between two stores to the transfers that remove it.

use vstd::prelude::*;

use crate::history::HISTORY_TAG;
use crate::order::{
    distinct_keys, has_key, is_stable_sort, key_leq, lemma_sort_of_permutation, lemma_sort_same_items,
    lemma_stable_sort_unique, stable_sort, with_key, SortKey, SortKeyed,
};
use crate::packfile::record::PACKFILE_TAG;
use crate::packfile::upload::opens;
use crate::record::domain::{
    AdditionalData, DecryptedData, Diff, EncryptedData, HostId, Record, RecordId, RecordIdx,
    RecordView,
};
use crate::record::encryption::{
    decrypts_to, encrypts_to, is_authentic, is_decryption_of, is_encryption_of, is_lawful,
    law_decrypt_reverses_encrypt, only_data_differs, record_binding, Encryption,
};
pub use crate::record::error::SyncError;
use crate::record::status::{
    has_diff, is_diff_between, is_diff_list, is_head_of, Head, RecordStatus,
};
use crate::record::upload::head_or_start;
use crate::text::{lemma_first_byte_decides, same_text, text_le, text_leq};

verus! {

/// What one host and tag needs for the two stores to agree.
#[derive(Clone, Debug, PartialEq, Eq)]
pub enum Operation {
    /// Send the records from `remote` up to `local`.
    Upload { local: RecordIdx, remote: Option<RecordIdx>, host: HostId, tag: String },
    /// Fetch the records from `local` up to `remote`.
    Download { local: Option<RecordIdx>, remote: RecordIdx, host: HostId, tag: String },
    /// Both sides have the same head.
    Noop { host: HostId, tag: String },
}

impl Operation {
    pub open spec fn host(self) -> HostId {
        match self {
            Operation::Upload { host, .. } => host,
            Operation::Download { host, .. } => host,
            Operation::Noop { host, .. } => host,
        }
    }

    pub open spec fn tag(self) -> String {
        match self {
            Operation::Upload { tag, .. } => tag,
            Operation::Download { tag, .. } => tag,
            Operation::Noop { tag, .. } => tag,
        }
    }
}

impl SortKeyed for Operation {
    /// Nothing to do comes first, then uploads, then downloads; each group by host and tag, but
    /// for downloads the packfile manifests of a host come before its other tags.
    open spec fn sort_key(&self) -> SortKey {
        SortKey {
            rank: match *self {
                Operation::Noop { .. } => 0,
                Operation::Upload { .. } => 1,
                Operation::Download { .. } => 2,
            },
            host: self.host().0 as int,
            priority: if *self is Download && self.tag()@ != PACKFILE_TAG@ {
                1
            } else {
                0
            },
            tag: self.tag()@,
        }
    }

    fn at_or_before(&self, other: &Self) -> (r: bool) {
        let (rank_a, host_a, priority_a, tag_a) = key_parts(self);
        let (rank_b, host_b, priority_b, tag_b) = key_parts(other);
        if rank_a != rank_b {
            rank_a < rank_b
        } else if host_a != host_b {
            host_a < host_b
        } else if priority_a != priority_b {
            priority_a < priority_b
        } else {
            text_le(tag_a, tag_b)
        }
    }
}

/// The parts of an operation's sort key.
fn key_parts(op: &Operation) -> (parts: (u8, u128, u8, &str))
    ensures
        op.sort_key() == (SortKey {
            rank: parts.0 as int,
            host: parts.1 as int,
            priority: parts.2 as int,
            tag: parts.3@,
        }),
{
    match op {
        Operation::Noop { host, tag } => (0, host.0, 0, tag.as_str()),
        Operation::Upload { host, tag, .. } => (1, host.0, 0, tag.as_str()),
        Operation::Download { host, tag, .. } => {
            let priority: u8 = if same_text(tag.as_str(), PACKFILE_TAG) {
                0
            } else {
                1
            };
            (2, host.0, priority, tag.as_str())
        },
    }
}

/// What is said of a diff that knows of no store on either side.
pub const EMPTY_DIFF: &'static str =
    "diff has nothing for local or remote - (host, tag) does not exist";

/// A diff that knows of no store on either side.
pub open spec fn is_empty_diff(diff: Diff) -> bool {
    diff.local is None && diff.remote is None
}

/// What a diff asks for: an upload where the local head is ahead or the remote has none, a
/// download where the remote head is ahead or the local store has none, nothing where they agree.
pub open spec fn operation_for(diff: Diff) -> Operation
    recommends
        !is_empty_diff(diff),
{
    match (diff.local, diff.remote) {
        (Some(local), remote) if remote is None || local > remote->0 => Operation::Upload {
            local,
            remote,
            host: diff.host,
            tag: diff.tag,
        },
        (local, Some(remote)) if local is None || local->0 < remote => Operation::Download {
            local,
            remote,
            host: diff.host,
            tag: diff.tag,
        },
        _ => Operation::Noop { host: diff.host, tag: diff.tag },
    }
}

/// What each of the diffs asks for, in their order.
pub open spec fn operations_for(diffs: Seq<Diff>) -> Seq<Operation> {
    diffs.map_values(|diff: Diff| operation_for(diff))
}

/// Resolves diffs into operations, in the order in which they are to run.
///
/// Fails exactly if one of the diffs is empty on both sides.
pub fn operations(diffs: Vec<Diff>) -> (res: Result<Vec<Operation>, SyncError>)
    ensures
        match res {
            Ok(ops) => {
                &&& forall|i: int| 0 <= i < diffs@.len() ==> !is_empty_diff(#[trigger] diffs@[i])
                &&& is_plan(ops@, diffs@)
                &&& forall|i: int| 0 <= i < ops@.len() ==> can_transfer(#[trigger] ops@[i])
            },
            Err(e) => {
                &&& exists|i: int| 0 <= i < diffs@.len() && is_empty_diff(#[trigger] diffs@[i])
                &&& e matches SyncError::SyncLogicError { msg }
                &&& msg@ == EMPTY_DIFF@
            },
        },
{
    let ghost all = diffs@;
    let mut ops: Vec<Operation> = Vec::new();
    for diff in iter: diffs
        invariant
            all == diffs@,
            iter.seq() == all,
            ops@ == operations_for(all).take(iter.index() as int),
            forall|i: int| 0 <= i < iter.index() ==> !is_empty_diff(#[trigger] all[i]),
    {
        assert(diff == all[iter.index() as int]);
        let op = match (diff.local, diff.remote) {
            (Some(local), Some(remote)) => if local == remote {
                Operation::Noop { host: diff.host, tag: diff.tag }
            } else if local > remote {
                Operation::Upload {
                    local,
                    remote: Some(remote),
                    host: diff.host,
                    tag: diff.tag,
                }
            } else {
                Operation::Download {
                    local: Some(local),
                    remote,
                    host: diff.host,
                    tag: diff.tag,
                }
            },
            (None, Some(remote)) => Operation::Download {
                local: None,
                remote,
                host: diff.host,
                tag: diff.tag,
            },
            (Some(local), None) => Operation::Upload {
                local,
                remote: None,
                host: diff.host,
                tag: diff.tag,
            },
            (None, None) => {
                assert(is_empty_diff(all[iter.index() as int]));
                return Err(
                    SyncError::SyncLogicError {
                        msg: EMPTY_DIFF.to_owned(),
                    },
                );
            },
        };
        ops.push(op);
        assert(ops@ =~= operations_for(all).take(iter.index() + 1));
    }
    assert(operations_for(all).take(all.len() as int) =~= operations_for(all));
    let sorted = stable_sort(ops);
    proof {
        lemma_plan_can_run(sorted@, all);
    }
    Ok(sorted)
}

/// An upload goes forward: the local head is not behind the remote one.
pub open spec fn can_transfer(op: Operation) -> bool {
    op matches Operation::Upload { local, remote, .. } ==> local >= head_or_start(remote)
}

proof fn lemma_plan_can_run(ops: Seq<Operation>, diffs: Seq<Diff>)
    requires
        is_plan(ops, diffs),
    ensures
        forall|i: int| 0 <= i < ops.len() ==> can_transfer(#[trigger] ops[i]),
{
    law_one_operation_per_diff(ops, diffs);
    assert forall|j: int| 0 <= j < ops.len() implies can_transfer(#[trigger] ops[j]) by {
        let i = choose|i: int|
            0 <= i < diffs.len() && #[trigger] operation_for(diffs[i]) == ops[j];
    }
}

/// The operations for `diffs`, in the order in which they are to run: what [`operations`] returns
/// where it does not fail.
pub open spec fn is_plan(ops: Seq<Operation>, diffs: Seq<Diff>) -> bool {
    is_stable_sort(ops, operations_for(diffs))
}

/// Every diff becomes one operation, and every operation comes from a diff.
pub proof fn law_one_operation_per_diff(ops: Seq<Operation>, diffs: Seq<Diff>)
    requires
        is_plan(ops, diffs),
    ensures
        ops.len() == diffs.len(),
        forall|i: int| 0 <= i < diffs.len() ==> ops.contains(operation_for(#[trigger] diffs[i])),
        forall|j: int|
            0 <= j < ops.len() ==> exists|i: int|
                0 <= i < diffs.len() && #[trigger] operation_for(diffs[i]) == #[trigger] ops[j],
{
    let from = operations_for(diffs);
    lemma_sort_same_items(ops, from);
    assert forall|i: int| 0 <= i < diffs.len() implies ops.contains(
        operation_for(#[trigger] diffs[i]),
    ) by {
        assert(from[i] == operation_for(diffs[i]));
        assert(from.contains(from[i]));
    }
    assert forall|j: int| 0 <= j < ops.len() implies exists|i: int|
        0 <= i < diffs.len() && #[trigger] operation_for(diffs[i]) == #[trigger] ops[j] by {
        assert(ops.contains(ops[j]));
        assert(from.contains(ops[j]));
        let i = choose|i: int| 0 <= i < from.len() && from[i] == ops[j];
        assert(operation_for(diffs[i]) == ops[j]);
    }
}

/// Uploads run before downloads, and what needs nothing comes before both.
pub proof fn law_uploads_before_downloads(ops: Seq<Operation>, diffs: Seq<Diff>, i: int, j: int)
    requires
        is_plan(ops, diffs),
        0 <= i < j < ops.len(),
    ensures
        ops[i] is Download ==> ops[j] is Download,
        ops[j] is Noop ==> ops[i] is Noop,
{
    assert(key_leq(ops[i].sort_key(), ops[j].sort_key()));
}

/// Of the downloads of one host, the packfile manifests come first: their bundles are expanded
/// before any other tag is fetched.
pub proof fn law_packfiles_download_first(ops: Seq<Operation>, diffs: Seq<Diff>, i: int, j: int)
    requires
        is_plan(ops, diffs),
        0 <= i < ops.len(),
        0 <= j < ops.len(),
        ops[i] is Download,
        ops[j] is Download,
        ops[i].host() == ops[j].host(),
        ops[i].tag()@ == PACKFILE_TAG@,
        ops[j].tag()@ != PACKFILE_TAG@,
    ensures
        i < j,
{
    if j < i {
        assert(key_leq(ops[j].sort_key(), ops[i].sort_key()));
    }
}

/// Of the uploads of one host, the history comes before the packfile manifests: the records that
/// a bundle refers to are on the server before the bundle is.
pub proof fn law_history_uploads_first(ops: Seq<Operation>, diffs: Seq<Diff>, i: int, j: int)
    requires
        is_plan(ops, diffs),
        0 <= i < ops.len(),
        0 <= j < ops.len(),
        ops[i] is Upload,
        ops[j] is Upload,
        ops[i].host() == ops[j].host(),
        ops[i].tag()@ == HISTORY_TAG@,
        ops[j].tag()@ == PACKFILE_TAG@,
    ensures
        i < j,
{
    reveal_strlit("history");
    reveal_strlit("packfile");
    assert(HISTORY_TAG@[0] == 'h' && PACKFILE_TAG@[0] == 'p');
    lemma_first_byte_decides(HISTORY_TAG@, PACKFILE_TAG@);
    if j < i {
        assert(key_leq(ops[j].sort_key(), ops[i].sort_key()));
    } else if i == j {
        assert(HISTORY_TAG@[0] == PACKFILE_TAG@[0]);
    }
}

/// No host and tag has two diffs.
pub open spec fn is_one_diff_each(diffs: Seq<Diff>) -> bool {
    distinct_keys(diffs)
}

proof fn lemma_one_diff_each(diffs: Seq<Diff>)
    requires
        is_one_diff_each(diffs),
    ensures
        distinct_keys(operations_for(diffs)),
{
    let ops = operations_for(diffs);
    assert forall|i: int, j: int| 0 <= i < j < ops.len() implies #[trigger] ops[i].sort_key()
        != #[trigger] ops[j].sort_key() by {
        assert(diffs[i].sort_key() != diffs[j].sort_key());
        assert(ops[i] == operation_for(diffs[i]) && ops[j] == operation_for(diffs[j]));
        assert(ops[i].host() == diffs[i].host && ops[i].tag() == diffs[i].tag);
        assert(ops[j].host() == diffs[j].host && ops[j].tag() == diffs[j].tag);
    }
}

/// The same diffs give the same operations in the same order, and where no host and tag has two
/// diffs, the order in which the diffs are given does not matter.
pub proof fn law_same_diffs_same_plan(
    ops_a: Seq<Operation>,
    a: Seq<Diff>,
    ops_b: Seq<Operation>,
    b: Seq<Diff>,
)
    requires
        is_plan(ops_a, a),
        is_plan(ops_b, b),
        a == b || (is_one_diff_each(a) && is_one_diff_each(b) && a.to_multiset()
            == b.to_multiset()),
    ensures
        ops_a == ops_b,
{
    if a == b {
        lemma_stable_sort_unique(ops_a, ops_b, operations_for(a));
    } else {
        broadcast use vstd::seq_lib::group_to_multiset_ensures;

        let (from_a, from_b) = (operations_for(a), operations_for(b));
        lemma_one_diff_each(a);
        lemma_one_diff_each(b);
        assert forall|op: Operation| #[trigger] from_a.contains(op) <==> from_b.contains(op) by {
            if from_a.contains(op) {
                let i = choose|i: int| 0 <= i < from_a.len() && from_a[i] == op;
                assert(a.contains(a[i]));
                assert(b.to_multiset().count(a[i]) > 0);
                assert(b.contains(a[i]));
                let j = choose|j: int| 0 <= j < b.len() && b[j] == a[i];
                assert(from_b[j] == op);
            }
            if from_b.contains(op) {
                let j = choose|j: int| 0 <= j < from_b.len() && from_b[j] == op;
                assert(b.contains(b[j]));
                assert(a.to_multiset().count(b[j]) > 0);
                assert(a.contains(b[j]));
                let i = choose|i: int| 0 <= i < a.len() && a[i] == b[j];
                assert(from_a[i] == op);
            }
        }
        lemma_sort_of_permutation(ops_a, from_a, ops_b, from_b);
    }
}

/// What two stores differ in always resolves, and each operation has work to do: an upload has
/// the local head ahead, a download the remote head. No host and tag is named twice.
pub proof fn law_diff_resolves(
    ops: Seq<Operation>,
    diffs: Seq<Diff>,
    local: RecordStatus,
    remote: RecordStatus,
)
    requires
        is_diff_list(diffs, local, remote),
        is_plan(ops, diffs),
    ensures
        forall|i: int| 0 <= i < diffs.len() ==> !is_empty_diff(#[trigger] diffs[i]),
        is_one_diff_each(diffs),
        forall|j: int|
            0 <= j < ops.len() ==> match #[trigger] ops[j] {
                Operation::Upload { local: l, remote: r, host, tag } => {
                    &&& local.head(host, tag@) == Some(l)
                    &&& remote.head(host, tag@) == r
                    &&& r is None || l > r->0
                },
                Operation::Download { local: l, remote: r, host, tag } => {
                    &&& local.head(host, tag@) == l
                    &&& remote.head(host, tag@) == Some(r)
                    &&& l is None || l->0 < r
                },
                Operation::Noop { .. } => false,
            },
{
    law_one_operation_per_diff(ops, diffs);
    assert forall|i: int| 0 <= i < diffs.len() implies !is_empty_diff(#[trigger] diffs[i]) by {
        assert(is_diff_between(diffs[i], local, remote));
    }
    assert forall|j: int| 0 <= j < ops.len() implies match #[trigger] ops[j] {
        Operation::Upload { local: l, remote: r, host, tag } => {
            &&& local.head(host, tag@) == Some(l)
            &&& remote.head(host, tag@) == r
            &&& r is None || l > r->0
        },
        Operation::Download { local: l, remote: r, host, tag } => {
            &&& local.head(host, tag@) == l
            &&& remote.head(host, tag@) == Some(r)
            &&& l is None || l->0 < r
        },
        Operation::Noop { .. } => false,
    } by {
        let i = choose|i: int|
            0 <= i < diffs.len() && #[trigger] operation_for(diffs[i]) == ops[j];
        assert(is_diff_between(diffs[i], local, remote));
    }
}

/// What is to be done next to get a client for the server: `T` is what authorises it, `C` the client.
#[derive(Debug)]
pub enum BuildClient<T, C> {
    /// Get the token that the settings hold.
    FetchToken,
    /// Make a client with the token.
    Connect(T),
    /// Nothing: the client, or why there is none.
    Done(Result<C, SyncError>),
}

/// What came of a step towards a client.
#[derive(Debug)]
pub enum BuildClientEvent<T, C> {
    /// The token was got.
    TokenFetched(Result<T, String>),
    /// The client was made.
    Connected(Result<C, String>),
}

/// Goes on with getting a client. An event that was not asked for changes nothing.
pub fn build_client<T, C>(
    state: BuildClient<T, C>,
    event: BuildClientEvent<T, C>,
) -> (next: BuildClient<T, C>)
    ensures
        next == match (state, event) {
            (BuildClient::FetchToken, BuildClientEvent::TokenFetched(Ok(token))) => {
                BuildClient::Connect(token)
            },
            (BuildClient::FetchToken, BuildClientEvent::TokenFetched(Err(msg))) => {
                BuildClient::Done(Err(SyncError::RemoteRequestError { msg }))
            },
            (BuildClient::Connect(_), BuildClientEvent::Connected(Ok(client))) => {
                BuildClient::Done(Ok(client))
            },
            (BuildClient::Connect(_), BuildClientEvent::Connected(Err(msg))) => {
                BuildClient::Done(Err(SyncError::OperationalError { msg }))
            },
            _ => state,
        },
{
    match (state, event) {
        (BuildClient::FetchToken, BuildClientEvent::TokenFetched(fetched)) => {
            match fetched {
                Ok(token) => BuildClient::Connect(token),
                Err(msg) => BuildClient::Done(Err(SyncError::RemoteRequestError { msg })),
            }
        },
        (BuildClient::Connect(_), BuildClientEvent::Connected(made)) => {
            match made {
                Ok(client) => BuildClient::Done(Ok(client)),
                Err(msg) => BuildClient::Done(Err(SyncError::OperationalError { msg })),
            }
        },
        (state, _) => state,
    }
}

/// What is to be done next to find out how the local store differs from the server's.
#[derive(Debug)]
pub enum DiffStores {
    /// Read the heads of the local store.
    ReadLocal,
    /// Read the heads of the server's store.
    ReadRemote { local: RecordStatus },
    /// Nothing: the differences, and the heads of the server's store; or why they are not known.
    Done(Result<(Vec<Diff>, RecordStatus), SyncError>),
}

/// What came of a step towards the differences.
#[derive(Debug)]
pub enum DiffEvent {
    /// The local heads were read.
    LocalRead(Result<RecordStatus, String>),
    /// The server's heads were read.
    RemoteRead(Result<RecordStatus, String>),
}

impl DiffStores {
    pub open spec fn wf(self) -> bool {
        self matches DiffStores::ReadRemote { local } ==> local.wf()
    }
}

impl DiffEvent {
    pub open spec fn wf(self) -> bool {
        match self {
            DiffEvent::LocalRead(Ok(status)) => status.wf(),
            DiffEvent::RemoteRead(Ok(status)) => status.wf(),
            _ => true,
        }
    }
}

/// How finding the differences goes on: what `after` is, where `event` came of what `before` asked
/// for. An event that was not asked for changes nothing.
pub open spec fn diff_step(before: DiffStores, event: DiffEvent, after: DiffStores) -> bool {
    match (before, event) {
        (DiffStores::ReadLocal, DiffEvent::LocalRead(Ok(local))) => after
            == (DiffStores::ReadRemote { local }),
        (DiffStores::ReadLocal, DiffEvent::LocalRead(Err(msg))) => after == DiffStores::Done(
            Err(SyncError::LocalStoreError { msg }),
        ),
        (DiffStores::ReadRemote { local }, DiffEvent::RemoteRead(Ok(remote))) => {
            &&& after matches DiffStores::Done(Ok((diffs, index)))
            &&& is_diff_list(diffs@, local, remote)
            &&& index == remote
        },
        (DiffStores::ReadRemote { .. }, DiffEvent::RemoteRead(Err(msg))) => after
            == DiffStores::Done(Err(SyncError::RemoteRequestError { msg })),
        _ => after == before,
    }
}

/// Goes on with finding how the stores differ.
pub fn diff(state: DiffStores, event: DiffEvent) -> (next: DiffStores)
    requires
        state.wf(),
        event.wf(),
    ensures
        diff_step(state, event, next),
        next.wf(),
{
    match (state, event) {
        (DiffStores::ReadLocal, DiffEvent::LocalRead(read)) => {
            match read {
                Ok(local) => DiffStores::ReadRemote { local },
                Err(msg) => DiffStores::Done(Err(SyncError::LocalStoreError { msg })),
            }
        },
        (DiffStores::ReadRemote { local }, DiffEvent::RemoteRead(read)) => {
            match read {
                Ok(remote) => {
                    let diffs = local.diff(&remote);
                    DiffStores::Done(Ok((diffs, remote)))
                },
                Err(msg) => DiffStores::Done(Err(SyncError::RemoteRequestError { msg })),
            }
        },
        (state, _) => state,
    }
}

/// What is to be done next to check that the local key opens what the server has.
#[derive(Debug)]
pub enum CheckKey {
    /// Fetch up to `limit` records of `host` and `tag` from the server, from `start` on.
    FetchSample { host: HostId, tag: String, start: RecordIdx, limit: u64 },
    /// Nothing: the key will do, or why not.
    Done(Result<(), SyncError>),
}

/// Every head is one of packfile manifests, which are stored as plain text.
pub open spec fn is_all_manifests(heads: Seq<Head>) -> bool {
    forall|j: int| 0 <= j < heads.len() ==> (#[trigger] heads[j]).tag@ == PACKFILE_TAG@
}

/// The head at `k` is the one to sample: the first whose records are encrypted, or the first of all
/// where there are only manifests.
pub open spec fn is_sample(heads: Seq<Head>, k: int) -> bool {
    &&& 0 <= k < heads.len()
    &&& heads[k].tag@ != PACKFILE_TAG@ || (k == 0 && is_all_manifests(heads))
    &&& forall|j: int| 0 <= j < k ==> (#[trigger] heads[j]).tag@ == PACKFILE_TAG@
}

impl CheckKey {
    /// What a check starts with: the first record of the host and tag to sample. Where the server has
    /// no records at all, any key will do.
    pub open spec fn is_begin(self, remote_index: RecordStatus) -> bool {
        match self {
            CheckKey::FetchSample { host, tag, start, limit } => {
                &&& exists|k: int| #[trigger]
                    is_sample(remote_index.heads(), k) && host == remote_index.heads()[k].host
                        && tag@ == remote_index.heads()[k].tag@
                &&& start == 0
                &&& limit == 1
            },
            CheckKey::Done(res) => {
                &&& res == Ok::<(), SyncError>(())
                &&& remote_index.heads().len() == 0
            },
        }
    }

    /// Starts the check of the local key.
    pub fn begin(remote_index: &RecordStatus) -> (state: CheckKey)
        ensures
            state.is_begin(*remote_index),
    {
        let mut k: usize = 0;
        while k < remote_index.len()
            invariant
                k <= remote_index.heads().len(),
                forall|j: int|
                    0 <= j < k ==> (#[trigger] remote_index.heads()[j]).tag@ == PACKFILE_TAG@,
            decreases remote_index.heads().len() - k,
        {
            let head = remote_index.at(k);
            if !same_text(head.tag.as_str(), PACKFILE_TAG) {
                assert(is_sample(remote_index.heads(), k as int));
                return CheckKey::FetchSample {
                    host: head.host,
                    tag: head.tag.clone(),
                    start: 0,
                    limit: 1,
                };
            }
            k = k + 1;
        }
        if remote_index.len() == 0 {
            CheckKey::Done(Ok(()))
        } else {
            assert(is_sample(remote_index.heads(), 0));
            let head = remote_index.at(0);
            CheckKey::FetchSample { host: head.host, tag: head.tag.clone(), start: 0, limit: 1 }
        }
    }
}

/// How a check goes on: the key will do where the server gave no record, where what it gave is a
/// manifest, which says nothing of a key, or where the first record that it gave opens.
pub open spec fn check_key_step<E: Encryption>(
    before: CheckKey,
    fetched: Result<Vec<Record<EncryptedData>>, String>,
    key: Seq<u8>,
    after: CheckKey,
) -> bool {
    match (before, fetched) {
        (CheckKey::FetchSample { tag, .. }, Ok(records)) => if records@.len() == 0 || tag@
            == PACKFILE_TAG@ {
            after == CheckKey::Done(Ok(()))
        } else {
            match after {
                CheckKey::Done(Ok(_)) => opens::<E>(records@[0]@, key),
                CheckKey::Done(Err(SyncError::WrongKey)) => exists|msg: Seq<char>| #[trigger]
                    is_decryption_of::<E>(Err(msg), records@[0]@, key),
                _ => false,
            }
        },
        (CheckKey::FetchSample { .. }, Err(msg)) => after == CheckKey::Done(
            Err(SyncError::RemoteRequestError { msg }),
        ),
        (CheckKey::Done(_), _) => after == before,
    }
}

/// Goes on with the check of the local key.
pub fn check_encryption_key<E: Encryption>(
    state: CheckKey,
    fetched: Result<Vec<Record<EncryptedData>>, String>,
    key: &[u8; 32],
) -> (next: CheckKey)
    ensures
        check_key_step::<E>(state, fetched, key@, next),
{
    match state {
        CheckKey::FetchSample { tag, .. } => {
            match fetched {
                Ok(records) => {
                    let mut records = records;
                    if records.len() == 0 || same_text(tag.as_str(), PACKFILE_TAG) {
                        return CheckKey::Done(Ok(()));
                    }
                    let record = records.remove(0);
                    match record.decrypt::<E>(key) {
                        Ok(opened) => {
                            assert(is_decryption_of::<E>(Ok(opened@), record@, key@));
                            CheckKey::Done(Ok(()))
                        },
                        Err(msg) => {
                            assert(is_decryption_of::<E>(Err(msg@), record@, key@));
                            CheckKey::Done(Err(SyncError::WrongKey))
                        },
                    }
                },
                Err(msg) => CheckKey::Done(Err(SyncError::RemoteRequestError { msg })),
            }
        },
        done => done,
    }
}

/// Where the server has records of any host and tag, the check asks it once, for the first record of
/// one of them, and ends with its answer. A request that fails is never taken for a key that will
/// do, nor for one that will not.
pub proof fn law_check_asks_once<E: Encryption>(
    begun: CheckKey,
    remote_index: RecordStatus,
    fetched: Result<Vec<Record<EncryptedData>>, String>,
    key: Seq<u8>,
    after: CheckKey,
)
    requires
        remote_index.heads().len() > 0,
        begun.is_begin(remote_index),
        check_key_step::<E>(begun, fetched, key, after),
    ensures
        begun matches CheckKey::FetchSample { host, tag, start, limit } && remote_index.head(
            host,
            tag@,
        ) is Some && start == 0 && limit == 1,
        after is Done,
        fetched matches Err(msg) ==> after == CheckKey::Done(
            Err(SyncError::RemoteRequestError { msg }),
        ),
{
    match begun {
        CheckKey::FetchSample { host, tag, .. } => {
            let k = choose|k: int| #[trigger]
                is_sample(remote_index.heads(), k) && host == remote_index.heads()[k].host && tag@
                    == remote_index.heads()[k].tag@;
            assert(is_head_of(remote_index.heads(), k, host, tag@));
        },
        _ => {},
    }
}

/// A key that the server's sample was encrypted with, under a lawful cipher, will do.
pub proof fn law_right_key_will_do<E: Encryption>(
    before: CheckKey,
    record: RecordView<Seq<u8>>,
    fetched: Vec<Record<EncryptedData>>,
    key: Seq<u8>,
    after: CheckKey,
)
    requires
        is_lawful::<E>(),
        before is FetchSample,
        fetched@.len() > 0,
        is_encryption_of::<E>(fetched@[0]@, record, key),
        check_key_step::<E>(before, Ok(fetched), key, after),
    ensures
        after matches CheckKey::Done(Ok(_)),
{
    if after is Done && after->Done_0 is Err {
        let msg = choose|msg: Seq<char>| #[trigger]
            is_decryption_of::<E>(Err(msg), fetched@[0]@, key);
        law_decrypt_reverses_encrypt::<E>(record, fetched@[0]@, Err(msg), key);
    }
}

/// A key that the server's sample does not open under is refused: with an authentic cipher, any other
/// key than the one that the sample was encrypted with. A manifest is no such sample.
pub proof fn law_other_key_is_refused<E: Encryption>(
    before: CheckKey,
    record: RecordView<Seq<u8>>,
    fetched: Vec<Record<EncryptedData>>,
    sealed_key: Seq<u8>,
    key: Seq<u8>,
    after: CheckKey,
)
    requires
        is_authentic::<E>(),
        sealed_key != key,
        before is FetchSample,
        before->tag@ != PACKFILE_TAG@,
        fetched@.len() > 0,
        is_encryption_of::<E>(fetched@[0]@, record, sealed_key),
        check_key_step::<E>(before, Ok(fetched), key, after),
    ensures
        after == CheckKey::Done(Err(SyncError::WrongKey)),
{
    if after is Done && after->Done_0 is Ok {
        let plain = choose|plain: RecordView<Seq<u8>>| #[trigger]
            is_decryption_of::<E>(Ok(plain), fetched@[0]@, key);
        let opened = choose|opened: Result<DecryptedData, String>| #[trigger]
            decrypts_to::<E>(
                fetched@[0]@.data,
                record_binding(fetched@[0]@),
                key,
                opened,
            ) && opened is Ok;
        assert(encrypts_to::<E>(
            record.data,
            record_binding(record),
            sealed_key,
            fetched@[0]@.data,
        ));
        assert(decrypts_to::<E>(
            fetched@[0]@.data,
            record_binding(fetched@[0]@),
            key,
            opened,
        ));
    }
}

/// The operations that move records, in their order.
pub open spec fn transfers(ops: Seq<Operation>) -> Seq<Operation>
    decreases ops.len(),
{
    if ops.len() == 0 {
        Seq::empty()
    } else if ops.last() is Noop {
        transfers(ops.drop_last())
    } else {
        transfers(ops.drop_last()).push(ops.last())
    }
}

/// What is to be done next to carry out operations.
#[derive(Debug)]
pub enum SyncRemote {
    /// Carry out the upload or download `op`. Then come those in `pending`.
    Transfer {
        op: Operation,
        pending: Vec<Operation>,
        uploaded: i64,
        downloaded: Vec<RecordId>,
    },
    /// Nothing: how many records were uploaded and the ids of those downloaded, or the first failure.
    Done(Result<(i64, Vec<RecordId>), SyncError>),
}

/// What came of an operation.
#[derive(Debug)]
pub enum TransferEvent {
    /// The upload is over: how many records.
    Uploaded(Result<i64, SyncError>),
    /// The download is over: the ids of the records.
    Downloaded(Result<Vec<RecordId>, SyncError>),
}

impl SyncRemote {
    /// What follows when `left` are the transfers still to do.
    pub open spec fn is_at(
        self,
        left: Seq<Operation>,
        uploaded: int,
        downloaded: Seq<RecordId>,
    ) -> bool {
        if left.len() == 0 {
            &&& self matches SyncRemote::Done(Ok((count, all)))
            &&& count == uploaded
            &&& all@ == downloaded
        } else {
            &&& self matches SyncRemote::Transfer { op, pending, uploaded: count, downloaded: all }
            &&& op == left[0]
            &&& pending@ == left.skip(1)
            &&& count == uploaded
            &&& all@ == downloaded
        }
    }

    /// Starts carrying out operations.
    pub fn begin(operations: Vec<Operation>) -> (state: SyncRemote)
        ensures
            state.is_at(transfers(operations@), 0, Seq::empty()),
    {
        let mut left: Vec<Operation> = Vec::new();
        for op in iter: operations
            invariant
                iter.seq() == operations@,
                left@ == transfers(operations@.take(iter.index() as int)),
        {
            let ghost k = iter.index() as int;
            assert(operations@.take(k + 1).drop_last() =~= operations@.take(k));
            assert(operations@.take(k + 1).last() == op);
            match op {
                Operation::Noop { .. } => {},
                op => left.push(op),
            }
        }
        assert(operations@.take(operations@.len() as int) =~= operations@);
        SyncRemote::at(left, 0, Vec::new())
    }

    fn at(left: Vec<Operation>, uploaded: i64, downloaded: Vec<RecordId>) -> (state: SyncRemote)
        ensures
            state.is_at(left@, uploaded as int, downloaded@),
    {
        let mut pending = left;
        if pending.len() == 0 {
            SyncRemote::Done(Ok((uploaded, downloaded)))
        } else {
            let op = pending.remove(0);
            assert(pending@ =~= left@.skip(1));
            SyncRemote::Transfer { op, pending, uploaded, downloaded }
        }
    }
}

/// How carrying out operations goes on: what `after` is, where `event` came of what `before` asked
/// for. An event that was not asked for changes nothing.
pub open spec fn sync_remote_step(
    before: SyncRemote,
    event: TransferEvent,
    after: SyncRemote,
) -> bool {
    match (before, event) {
        (
            SyncRemote::Transfer { op: Operation::Upload { .. }, pending, uploaded, downloaded },
            TransferEvent::Uploaded(Ok(count)),
        ) => after.is_at(pending@, uploaded + count, downloaded@),
        (
            SyncRemote::Transfer { op: Operation::Upload { .. }, .. },
            TransferEvent::Uploaded(Err(e)),
        ) => after == SyncRemote::Done(Err(e)),
        (
            SyncRemote::Transfer { op: Operation::Download { .. }, pending, uploaded, downloaded },
            TransferEvent::Downloaded(Ok(ids)),
        ) => after.is_at(pending@, uploaded as int, downloaded@ + ids@),
        (
            SyncRemote::Transfer { op: Operation::Download { .. }, .. },
            TransferEvent::Downloaded(Err(e)),
        ) => after == SyncRemote::Done(Err(e)),
        _ => after == before,
    }
}

/// The number of records uploaded in all can be counted.
pub open spec fn can_count_upload(state: SyncRemote, event: TransferEvent) -> bool {
    match (state, event) {
        (
            SyncRemote::Transfer { op: Operation::Upload { .. }, uploaded, .. },
            TransferEvent::Uploaded(Ok(count)),
        ) => i64::MIN <= uploaded + count <= i64::MAX,
        _ => true,
    }
}

/// Goes on with carrying out operations, one after the other.
pub fn sync_remote(state: SyncRemote, event: TransferEvent) -> (next: SyncRemote)
    requires
        can_count_upload(state, event),
    ensures
        sync_remote_step(state, event, next),
{
    match (state, event) {
        (
            SyncRemote::Transfer { op: Operation::Upload { .. }, pending, uploaded, downloaded },
            TransferEvent::Uploaded(res),
        ) => {
            match res {
                Ok(count) => SyncRemote::at(pending, uploaded + count, downloaded),
                Err(e) => SyncRemote::Done(Err(e)),
            }
        },
        (
            SyncRemote::Transfer { op: Operation::Download { .. }, pending, uploaded, downloaded },
            TransferEvent::Downloaded(res),
        ) => {
            match res {
                Ok(ids) => {
                    let mut all = downloaded;
                    let mut new = ids;
                    all.append(&mut new);
                    SyncRemote::at(pending, uploaded, all)
                },
                Err(e) => SyncRemote::Done(Err(e)),
            }
        },
        (state, _) => state,
    }
}

/// How many records a page of a sync holds.
pub const PAGE_SIZE: u64 = 100;

/// What is to be done next for a sync.
#[derive(Debug)]
pub enum SyncState {
    /// Get a client for the server.
    Connect,
    /// Find out how the stores differ.
    Diff,
    /// Check that the local key opens what the server has.
    CheckKey { diffs: Vec<Diff>, remote_index: RecordStatus },
    /// Carry out `operations`, in pages of `page_size` records.
    Transfer { operations: Vec<Operation>, page_size: u64 },
    /// Nothing: how many records were uploaded and the ids of those downloaded, or why it failed.
    Done(Result<(i64, Vec<RecordId>), SyncError>),
}

/// What came of a step of a sync.
#[derive(Debug)]
pub enum SyncEvent {
    /// There is a client.
    Connected(Result<(), SyncError>),
    /// The differences are known, and the heads of the server's store.
    Diffed(Result<(Vec<Diff>, RecordStatus), SyncError>),
    /// The key was checked.
    KeyChecked(Result<(), SyncError>),
    /// The operations were carried out.
    Transferred(Result<(i64, Vec<RecordId>), SyncError>),
}

/// How a sync goes on: what `after` is, where `event` came of what `before` asked for. A failure of any
/// step ends it. An event that was not asked for changes nothing.
pub open spec fn sync_step(before: SyncState, event: SyncEvent, after: SyncState) -> bool {
    match (before, event) {
        (SyncState::Connect, SyncEvent::Connected(Ok(_))) => after == SyncState::Diff,
        (SyncState::Connect, SyncEvent::Connected(Err(e))) => after == SyncState::Done(Err(e)),
        (SyncState::Diff, SyncEvent::Diffed(Ok((diffs, remote_index)))) => after == (SyncState::CheckKey {
            diffs,
            remote_index,
        }),
        (SyncState::Diff, SyncEvent::Diffed(Err(e))) => after == SyncState::Done(Err(e)),
        (SyncState::CheckKey { diffs, .. }, SyncEvent::KeyChecked(Ok(_))) => if exists|i: int|
            0 <= i < diffs@.len() && is_empty_diff(#[trigger] diffs@[i]) {
            &&& after matches SyncState::Done(Err(SyncError::SyncLogicError { msg }))
            &&& msg@ == EMPTY_DIFF@
        } else {
            &&& after matches SyncState::Transfer { operations: ops, page_size }
            &&& is_plan(ops@, diffs@)
            &&& forall|i: int| 0 <= i < ops@.len() ==> can_transfer(#[trigger] ops@[i])
            &&& page_size == PAGE_SIZE
        },
        (SyncState::CheckKey { .. }, SyncEvent::KeyChecked(Err(e))) => after == SyncState::Done(Err(e)),
        (SyncState::Transfer { .. }, SyncEvent::Transferred(res)) => after == SyncState::Done(res),
        _ => after == before,
    }
}

/// Goes on with a sync. It ends before either store is touched where the local key does not open what
/// the server has.
pub fn sync(state: SyncState, event: SyncEvent) -> (next: SyncState)
    ensures
        sync_step(state, event, next),
{
    match (state, event) {
        (SyncState::Connect, SyncEvent::Connected(res)) => {
            match res {
                Ok(_) => SyncState::Diff,
                Err(e) => SyncState::Done(Err(e)),
            }
        },
        (SyncState::Diff, SyncEvent::Diffed(res)) => {
            match res {
                Ok((diffs, remote_index)) => SyncState::CheckKey { diffs, remote_index },
                Err(e) => SyncState::Done(Err(e)),
            }
        },
        (SyncState::CheckKey { diffs, .. }, SyncEvent::KeyChecked(res)) => {
            match res {
                Ok(_) => match operations(diffs) {
                    Ok(ops) => SyncState::Transfer { operations: ops, page_size: PAGE_SIZE },
                    Err(e) => SyncState::Done(Err(e)),
                },
                Err(e) => SyncState::Done(Err(e)),
            }
        },
        (SyncState::Transfer { .. }, SyncEvent::Transferred(res)) => SyncState::Done(res),
        (state, _) => state,
    }
}

/// The states that carrying out operations goes through, and the events between them.
pub open spec fn is_sync_remote_run(states: Seq<SyncRemote>, events: Seq<TransferEvent>) -> bool {
    &&& states.len() == events.len() + 1
    &&& forall|i: int|
        #![trigger events[i]]
        0 <= i < events.len() ==> can_count_upload(states[i], events[i]) && sync_remote_step(
            states[i],
            events[i],
            states[i + 1],
        )
}

/// The operation that succeeded at place `i`, if one did.
pub open spec fn finished_at(
    states: Seq<SyncRemote>,
    events: Seq<TransferEvent>,
    i: int,
) -> Option<Operation> {
    match (states[i], events[i]) {
        (SyncRemote::Transfer { op, .. }, TransferEvent::Uploaded(Ok(_))) if op is Upload => Some(
            op,
        ),
        (
            SyncRemote::Transfer { op, .. },
            TransferEvent::Downloaded(Ok(_)),
        ) if op is Download => Some(op),
        _ => None,
    }
}

/// The operations that succeeded before place `n`, in the order in which they did.
pub open spec fn finished(
    states: Seq<SyncRemote>,
    events: Seq<TransferEvent>,
    n: int,
) -> Seq<Operation>
    decreases n,
{
    if n <= 0 {
        Seq::empty()
    } else {
        match finished_at(states, events, n - 1) {
            Some(op) => finished(states, events, n - 1).push(op),
            None => finished(states, events, n - 1),
        }
    }
}

/// How many records the uploads that succeeded before place `n` counted.
pub open spec fn uploaded_by(states: Seq<SyncRemote>, events: Seq<TransferEvent>, n: int) -> int
    decreases n,
{
    if n <= 0 {
        0
    } else {
        uploaded_by(states, events, n - 1) + match (
            finished_at(states, events, n - 1),
            events[n - 1],
        ) {
            (Some(_), TransferEvent::Uploaded(Ok(count))) => count as int,
            _ => 0,
        }
    }
}

/// The ids that the downloads that succeeded before place `n` brought, in the order in which they did.
pub open spec fn downloaded_by(
    states: Seq<SyncRemote>,
    events: Seq<TransferEvent>,
    n: int,
) -> Seq<RecordId>
    decreases n,
{
    if n <= 0 {
        Seq::empty()
    } else {
        downloaded_by(states, events, n - 1) + match (
            finished_at(states, events, n - 1),
            events[n - 1],
        ) {
            (Some(_), TransferEvent::Downloaded(Ok(ids))) => ids@,
            _ => Seq::empty(),
        }
    }
}

/// Operations are carried out one after the other, in their order, each exactly once; those that need
/// nothing are passed over. Where all succeed, the result is the sum of what the uploads counted
/// and the ids of what the downloads brought. A failure comes from an operation, and then those
/// after it are not carried out.
pub proof fn law_operations_run_in_order(
    states: Seq<SyncRemote>,
    events: Seq<TransferEvent>,
    operations: Seq<Operation>,
    n: int,
)
    requires
        is_sync_remote_run(states, events),
        states[0].is_at(transfers(operations), 0, Seq::empty()),
        0 <= n < states.len(),
    ensures
        match states[n] {
            SyncRemote::Transfer { op, pending, uploaded, downloaded } => {
                &&& transfers(operations) == finished(states, events, n).push(op) + pending@
                &&& uploaded == uploaded_by(states, events, n)
                &&& downloaded@ == downloaded_by(states, events, n)
            },
            SyncRemote::Done(Ok((uploaded, downloaded))) => {
                &&& transfers(operations) == finished(states, events, n)
                &&& uploaded == uploaded_by(states, events, n)
                &&& downloaded@ == downloaded_by(states, events, n)
            },
            SyncRemote::Done(Err(e)) => {
                &&& finished(states, events, n).len() < transfers(operations).len()
                &&& finished(states, events, n) == transfers(operations).take(
                    finished(states, events, n).len() as int,
                )
                &&& exists|i: int|
                    #![trigger events[i]]
                    0 <= i < n && states[i] is Transfer && (events[i] == TransferEvent::Uploaded(
                        Err(e),
                    ) || events[i] == TransferEvent::Downloaded(Err(e)))
            },
        },
    decreases n,
{
    let all = transfers(operations);
    if n == 0 {
        if all.len() > 0 {
            assert(all =~= finished(states, events, 0).push(all[0]) + all.skip(1));
        } else {
            assert(all =~= finished(states, events, 0));
        }
    } else {
        law_operations_run_in_order(states, events, operations, n - 1);
        let event = events[n - 1];
        let (before, done) = (finished(states, events, n - 1), finished(states, events, n));
        assert(downloaded_by(states, events, n - 1) + Seq::<RecordId>::empty() =~= downloaded_by(
            states,
            events,
            n - 1,
        ));
        match states[n - 1] {
            SyncRemote::Transfer { op, pending, .. } => {
                if finished_at(states, events, n - 1) is Some {
                    assert(done == before.push(op));
                    if pending@.len() > 0 {
                        assert(all =~= done.push(pending@[0]) + pending@.skip(1));
                    } else {
                        assert(all =~= done);
                    }
                } else if states[n] is Done {
                    assert(before =~= all.take(before.len() as int));
                }
            },
            _ => {},
        }
    }
}

/// Where the diffs are those of two stores, none of the operations for them is passed over.
pub proof fn law_every_difference_is_carried_out(
    ops: Seq<Operation>,
    diffs: Seq<Diff>,
    local: RecordStatus,
    remote: RecordStatus,
)
    requires
        is_diff_list(diffs, local, remote),
        is_plan(ops, diffs),
    ensures
        transfers(ops) == ops,
{
    law_diff_resolves(ops, diffs, local, remote);
    lemma_no_noop(ops);
}

proof fn lemma_no_noop(ops: Seq<Operation>)
    requires
        forall|i: int| 0 <= i < ops.len() ==> !(#[trigger] ops[i] is Noop),
    ensures
        transfers(ops) == ops,
    decreases ops.len(),
{
    if ops.len() > 0 {
        assert forall|i: int| 0 <= i < ops.drop_last().len() implies !(
        #[trigger] ops.drop_last()[i] is Noop) by {
            assert(ops.drop_last()[i] == ops[i]);
        }
        lemma_no_noop(ops.drop_last());
        assert(!(ops[ops.len() - 1] is Noop));
        assert(ops.drop_last().push(ops.last()) =~= ops);
    } else {
        assert(transfers(ops) =~= ops);
    }
}

/// The states that a sync goes through, and the events between them.
pub open spec fn is_sync_run(states: Seq<SyncState>, events: Seq<SyncEvent>) -> bool {
    &&& states.len() == events.len() + 1
    &&& states[0] is Connect
    &&& forall|i: int|
        #![trigger events[i]]
        0 <= i < events.len() ==> sync_step(states[i], events[i], states[i + 1])
}

/// Records are moved only after the local key has been checked against the server and will do, and
/// what is moved is what the differences that were found ask for. The places where the
/// differences were found and where the key was checked are returned.
pub proof fn law_key_is_checked_before_transfer(
    states: Seq<SyncState>,
    events: Seq<SyncEvent>,
    n: int,
) -> (at: (int, int))
    requires
        is_sync_run(states, events),
        0 <= n < states.len(),
        states[n] is Transfer || states[n] is CheckKey,
    ensures
        0 <= at.0 < n,
        states[at.0] is Diff,
        ({
            &&& events[at.0] matches SyncEvent::Diffed(Ok((found, index)))
            &&& match states[n] {
                SyncState::CheckKey { diffs, remote_index } => diffs == found && remote_index == index,
                SyncState::Transfer { operations: ops, page_size } => {
                    &&& at.0 < at.1 < n
                    &&& states[at.1] == (SyncState::CheckKey { diffs: found, remote_index: index })
                    &&& events[at.1] matches SyncEvent::KeyChecked(Ok(_))
                    &&& is_plan(ops@, found@)
                    &&& page_size == PAGE_SIZE
                },
                _ => false,
            }
        }),
    decreases n,
{
    if n == 0 {
        (0, 0)
    } else {
        let event = events[n - 1];
        match states[n - 1] {
            SyncState::Diff => (n - 1, 0),
            SyncState::CheckKey { .. } => {
                let at = law_key_is_checked_before_transfer(states, events, n - 1);
                (at.0, n - 1)
            },
            SyncState::Transfer { .. } => law_key_is_checked_before_transfer(states, events, n - 1),
            _ => (0, 0),
        }
    }
}

/// How far a sync has got.
pub open spec fn stage(state: SyncState) -> int {
    match state {
        SyncState::Connect => 0,
        SyncState::Diff => 1,
        SyncState::CheckKey { .. } => 2,
        SyncState::Transfer { .. } => 3,
        SyncState::Done(_) => 4,
    }
}

proof fn lemma_stages(states: Seq<SyncState>, events: Seq<SyncEvent>, i: int, n: int)
    requires
        is_sync_run(states, events),
        0 <= i <= n < states.len(),
    ensures
        stage(states[i]) <= stage(states[n]),
        states[i] is Done ==> states[n] == states[i],
    decreases n - i,
{
    if i < n {
        lemma_stages(states, events, i, n - 1);
        let event = events[n - 1];
    }
}

/// Where the key does not do, the sync ends with that error, and no records are moved.
pub proof fn law_wrong_key_moves_nothing(
    states: Seq<SyncState>,
    events: Seq<SyncEvent>,
    i: int,
    n: int,
)
    requires
        is_sync_run(states, events),
        0 <= i < events.len(),
        0 <= n < states.len(),
        states[i] is CheckKey,
        events[i] matches SyncEvent::KeyChecked(Err(_)),
    ensures
        !(states[n] is Transfer),
        n > i ==> states[n] == SyncState::Done(Err(events[i]->KeyChecked_0->Err_0)),
{
    let event = events[i];
    if n <= i {
        lemma_stages(states, events, n, i);
    } else {
        lemma_stages(states, events, i + 1, n);
    }
}

/// An operation does for its host and tag what the two heads ask for: the records past the head that is
/// behind move to that side, none move where the heads are the same.
pub open spec fn answers(op: Operation, diff: Diff) -> bool {
    match op {
        Operation::Upload { local, remote, host, tag } => {
            &&& host == diff.host && tag == diff.tag
            &&& diff.local == Some(local) && diff.remote == remote
            &&& remote matches Some(r) ==> r < local
        },
        Operation::Download { local, remote, host, tag } => {
            &&& host == diff.host && tag == diff.tag
            &&& diff.local == local && diff.remote == Some(remote)
            &&& local matches Some(l) ==> l < remote
        },
        Operation::Noop { host, tag } => {
            &&& host == diff.host && tag == diff.tag
            &&& diff.local is Some && diff.local == diff.remote
        },
    }
}

/// A plan fails exactly where a diff has a head on neither side. Otherwise each diff has one operation,
/// which answers it, and there are no others. The answers, in the order of the diffs, are returned.
pub proof fn law_plan_answers_each_diff(
    diffs: Vec<Diff>,
    res: Result<Vec<Operation>, SyncError>,
) -> (answered: Seq<Operation>)
    requires
        call_ensures(operations, (diffs,), res),
    ensures
        res is Err <==> exists|i: int|
            0 <= i < diffs@.len() && (#[trigger] diffs@[i]).local is None && diffs@[i].remote
                is None,
        res matches Err(e) ==> (e matches SyncError::SyncLogicError { msg } && msg@
            == "diff has nothing for local or remote - (host, tag) does not exist"@),
        res matches Ok(ops) ==> {
            &&& answered.len() == diffs@.len()
            &&& forall|i: int| 0 <= i < diffs@.len() ==> answers(#[trigger] answered[i], diffs@[i])
            &&& ops@.to_multiset() == answered.to_multiset()
            &&& is_plan(ops@, diffs@)
        },
{
    let answered = operations_for(diffs@);
    if res is Ok {
        assert forall|i: int| 0 <= i < diffs@.len() implies answers(
            #[trigger] answered[i],
            diffs@[i],
        ) by {
            assert(!is_empty_diff(diffs@[i]));
        }
    } else {
        let i = choose|i: int| 0 <= i < diffs@.len() && is_empty_diff(#[trigger] diffs@[i]);
        assert(diffs@[i].local is None && diffs@[i].remote is None);
    }
    if exists|i: int|
        0 <= i < diffs@.len() && (#[trigger] diffs@[i]).local is None && diffs@[i].remote is None {
        let i = choose|i: int|
            0 <= i < diffs@.len() && (#[trigger] diffs@[i]).local is None && diffs@[i].remote
                is None;
        assert(is_empty_diff(diffs@[i]));
    }
    answered
}

/// In a plan, what needs nothing stands first, then the uploads, then the downloads. Those of one sort
/// stand by host. Of one host, uploads stand by tag, and downloads have the manifests of packfiles
/// before the other tags, which stand by tag.
pub proof fn law_plan_is_in_order(
    diffs: Vec<Diff>,
    ops: Vec<Operation>,
    i: int,
    j: int,
)
    requires
        call_ensures(operations, (diffs,), Ok(ops)),
        0 <= i < j < ops@.len(),
    ensures
        ops@[i] is Upload ==> !(ops@[j] is Noop),
        ops@[i] is Download ==> ops@[j] is Download,
        match (ops@[i], ops@[j]) {
            (Operation::Noop { host: g, tag: s }, Operation::Noop { host: h, tag: t }) => g.0
                < h.0 || (g == h && text_leq(s@, t@)),
            (
                Operation::Upload { host: g, tag: s, .. },
                Operation::Upload { host: h, tag: t, .. },
            ) => g.0 < h.0 || (g == h && text_leq(s@, t@)),
            (
                Operation::Download { host: g, tag: s, .. },
                Operation::Download { host: h, tag: t, .. },
            ) => g.0 < h.0 || (g == h && (if s@ == "packfile"@ {
                true
            } else {
                t@ != "packfile"@ && text_leq(s@, t@)
            })),
            _ => true,
        },
{
    assert(is_plan(ops@, diffs@));
    assert(key_leq(ops@[i].sort_key(), ops@[j].sort_key()));
}

proof fn lemma_same_filter(
    ops: Seq<Operation>,
    diffs: Seq<Diff>,
    p: spec_fn(Operation) -> bool,
    key: SortKey,
)
    requires
        is_plan(ops, diffs),
        forall|op: Operation| #[trigger] p(op) <==> op.sort_key() == key,
    ensures
        ops.filter(p) == operations_for(diffs).filter(p),
{
    assert(p =~= has_key::<Operation>(key));
    assert(with_key(ops, key) == with_key(operations_for(diffs), key));
}

/// Operations that a plan has no order for, those of one sort, host and tag, stay in the order of the
/// diffs that they answer.
pub proof fn law_plan_keeps_the_order_of_equals(
    diffs: Vec<Diff>,
    ops: Vec<Operation>,
    host: HostId,
    tag: Seq<char>,
) -> (answered: Seq<Operation>)
    requires
        call_ensures(operations, (diffs,), Ok(ops)),
    ensures
        answered.len() == diffs@.len(),
        forall|i: int| 0 <= i < diffs@.len() ==> answers(#[trigger] answered[i], diffs@[i]),
        ({
            let p = |op: Operation|
                op matches Operation::Upload { host: h, tag: t, .. } && h == host && t@ == tag;
            ops@.filter(p) == answered.filter(p)
        }),
        ({
            let p = |op: Operation|
                op matches Operation::Download { host: h, tag: t, .. } && h == host && t@ == tag;
            ops@.filter(p) == answered.filter(p)
        }),
        ({
            let p = |op: Operation|
                op matches Operation::Noop { host: h, tag: t } && h == host && t@ == tag;
            ops@.filter(p) == answered.filter(p)
        }),
{
    let answered = operations_for(diffs@);
    assert forall|i: int| 0 <= i < diffs@.len() implies answers(
        #[trigger] answered[i],
        diffs@[i],
    ) by {
        assert(!is_empty_diff(diffs@[i]));
    }
    let upload = |op: Operation|
        op matches Operation::Upload { host: h, tag: t, .. } && h == host && t@ == tag;
    let download = |op: Operation|
        op matches Operation::Download { host: h, tag: t, .. } && h == host && t@ == tag;
    let noop = |op: Operation|
        op matches Operation::Noop { host: h, tag: t } && h == host && t@ == tag;
    let last: int = if tag == PACKFILE_TAG@ {
        0
    } else {
        1
    };
    lemma_same_filter(ops@, diffs@, noop, SortKey { rank: 0, host: host.0 as int, priority: 0, tag });
    lemma_same_filter(
        ops@,
        diffs@,
        upload,
        SortKey { rank: 1, host: host.0 as int, priority: 0, tag },
    );
    lemma_same_filter(
        ops@,
        diffs@,
        download,
        SortKey { rank: 2, host: host.0 as int, priority: last, tag },
    );
    answered
}

/// A client is made with the token that was fetched, and is the one that was made. A failure to get a
/// token is the server's, a failure to make a client one of setting up; either ends it with what was
/// said.
pub proof fn law_client_is_built_with_the_token<T, C>(
    state: BuildClient<T, C>,
    event: BuildClientEvent<T, C>,
    next: BuildClient<T, C>,
)
    requires
        call_ensures(build_client::<T, C>, (state, event), next),
    ensures
        (state is FetchToken && event is TokenFetched && event->TokenFetched_0 is Ok) ==> next
            == BuildClient::<T, C>::Connect(event->TokenFetched_0->Ok_0),
        (state is FetchToken && event is TokenFetched && event->TokenFetched_0 is Err) ==> next
            == BuildClient::<T, C>::Done(
            Err(SyncError::RemoteRequestError { msg: event->TokenFetched_0->Err_0 }),
        ),
        (state is Connect && event is Connected && event->Connected_0 is Ok) ==> next
            == BuildClient::<T, C>::Done(Ok(event->Connected_0->Ok_0)),
        (state is Connect && event is Connected && event->Connected_0 is Err) ==> next
            == BuildClient::<T, C>::Done(
            Err(SyncError::OperationalError { msg: event->Connected_0->Err_0 }),
        ),
        (state is Done || (state is FetchToken && !(event is TokenFetched)) || (state is Connect
            && !(event is Connected))) ==> next == state,
{
}

/// The differences are those between the two heads that were read: they name a host and tag exactly
/// where its heads differ, with both heads. The heads of the server come with them, unchanged. A
/// failure to read ends it with what was said.
pub proof fn law_diff_compares_what_was_read(
    state: DiffStores,
    event: DiffEvent,
    next: DiffStores,
    host: HostId,
    tag: Seq<char>,
)
    requires
        call_ensures(diff, (state, event), next),
    ensures
        (state is ReadLocal && event is LocalRead && event->LocalRead_0 is Ok) ==> next == (
        DiffStores::ReadRemote { local: event->LocalRead_0->Ok_0 }),
        (state is ReadLocal && event is LocalRead && event->LocalRead_0 is Err) ==> next
            == DiffStores::Done(Err(SyncError::LocalStoreError { msg: event->LocalRead_0->Err_0 })),
        (state is ReadRemote && event is RemoteRead && event->RemoteRead_0 is Ok) ==> {
            let (local, remote) = (state->ReadRemote_local, event->RemoteRead_0->Ok_0);
            &&& next is Done && next->Done_0 is Ok
            &&& next->Done_0->Ok_0.1 == remote
            &&& local.head(host, tag) != remote.head(host, tag) <==> exists|i: int|
                0 <= i < next->Done_0->Ok_0.0@.len() && (
                #[trigger] next->Done_0->Ok_0.0@[i]).host == host
                    && next->Done_0->Ok_0.0@[i].tag@ == tag
            &&& forall|i: int|
                0 <= i < next->Done_0->Ok_0.0@.len() && (
                #[trigger] next->Done_0->Ok_0.0@[i]).host == host
                    && next->Done_0->Ok_0.0@[i].tag@ == tag ==> next->Done_0->Ok_0.0@[i].local
                    == local.head(host, tag) && next->Done_0->Ok_0.0@[i].remote == remote.head(
                    host,
                    tag,
                )
        },
        (state is ReadRemote && event is RemoteRead && event->RemoteRead_0 is Err) ==> next
            == DiffStores::Done(
            Err(SyncError::RemoteRequestError { msg: event->RemoteRead_0->Err_0 }),
        ),
        (state is Done || (state is ReadLocal && !(event is LocalRead)) || (state is ReadRemote
            && !(event is RemoteRead))) ==> next == state,
{
    if state is ReadRemote && event is RemoteRead && event->RemoteRead_0 is Ok {
        let (local, remote) = (state->ReadRemote_local, event->RemoteRead_0->Ok_0);
        let diffs = next->Done_0->Ok_0.0@;
        assert(is_diff_list(diffs, local, remote));
        assert forall|i: int| 0 <= i < diffs.len() && (#[trigger] diffs[i]).host == host
            && diffs[i].tag@ == tag implies diffs[i].local == local.head(host, tag)
            && diffs[i].remote == remote.head(host, tag) && local.head(host, tag) != remote.head(
            host,
            tag,
        ) by {
            assert(is_diff_between(diffs[i], local, remote));
        }
        if local.head(host, tag) != remote.head(host, tag) {
            assert(has_diff(diffs, host, tag));
        }
    }
}

/// A check of the key asks for the very first record of a host and tag that the server has: of the first
/// one that is not of manifests, or of the first of all where there are only manifests. It asks for
/// nothing exactly where the server has nothing, and then the key will do. The place among the
/// heads is returned.
pub proof fn law_check_samples_what_is_encrypted(
    index: &RecordStatus,
    state: CheckKey,
) -> (at: int)
    requires
        call_ensures(CheckKey::begin, (index,), state),
    ensures
        index.heads().len() == 0 ==> state == CheckKey::Done(Ok(())),
        index.heads().len() > 0 ==> {
            &&& state is FetchSample
            &&& state->start == 0
            &&& state->limit == 1
            &&& 0 <= at < index.heads().len()
            &&& state->host == index.heads()[at].host
            &&& state->tag@ == index.heads()[at].tag@
            &&& forall|j: int| 0 <= j < at ==> (#[trigger] index.heads()[j]).tag@ == "packfile"@
            &&& state->tag@ == "packfile"@ ==> at == 0 && forall|j: int|
                0 <= j < index.heads().len() ==> (#[trigger] index.heads()[j]).tag@ == "packfile"@
        },
{
    let heads = index.heads();
    assert(state.is_begin(*index));
    choose|k: int| #[trigger]
        is_sample(heads, k) && state->host == heads[k].host && state->tag@ == heads[k].tag@
}

/// A key is judged by what the cipher answers, asked with that key to open the first record that the
/// server gave: it will do exactly where that opens, and is the wrong one exactly where it does not.
/// Without such a record, or where it is a manifest, the key will do; a request that failed ends the
/// check with what the server said. What the cipher was asked is returned.
pub proof fn law_key_is_judged_by_the_first_record<E: Encryption>(
    state: CheckKey,
    fetched: Result<Vec<Record<EncryptedData>>, String>,
    key: &[u8; 32],
    next: CheckKey,
) -> (call: (
    EncryptedData,
    AdditionalData<'static>,
    &'static [u8; 32],
    Result<DecryptedData, String>,
))
    requires
        call_ensures(check_encryption_key::<E>, (state, fetched, key), next),
    ensures
        state is Done ==> next == state,
        (state is FetchSample && fetched is Err) ==> next == CheckKey::Done(
            Err(SyncError::RemoteRequestError { msg: fetched->Err_0 }),
        ),
        (state is FetchSample && fetched is Ok && (fetched->Ok_0@.len() == 0 || state->tag@
            == "packfile"@)) ==> next == CheckKey::Done(Ok(())),
        (state is FetchSample && fetched is Ok && fetched->Ok_0@.len() > 0 && state->tag@
            != "packfile"@) ==> {
            let record = fetched->Ok_0@[0];
            &&& call_ensures(E::decrypt, (call.0, call.1, call.2), call.3)
            &&& call.0.data@ == record.data.data@
            &&& call.0.content_encryption_key@ == record.data.content_encryption_key@
            &&& *call.1.id == record.id
            &&& *call.1.idx == record.idx
            &&& call.1.version@ == record.version@
            &&& call.1.tag@ == record.tag@
            &&& *call.1.host == record.host.id
            &&& call.2@ == key@
            &&& call.3 is Ok ==> (next matches CheckKey::Done(Ok(_)))
            &&& call.3 is Err ==> next == CheckKey::Done(Err(SyncError::WrongKey))
        },
{
    if state is FetchSample && fetched is Ok && fetched->Ok_0@.len() > 0 && state->tag@
        != PACKFILE_TAG@ {
        let record = fetched->Ok_0@[0]@;
        let after: Result<RecordView<Seq<u8>>, Seq<char>> = if next->Done_0 is Ok {
            Ok(choose|plain: RecordView<Seq<u8>>| #[trigger]
                is_decryption_of::<E>(Ok(plain), record, key@))
        } else {
            Err(choose|msg: Seq<char>| #[trigger]
                is_decryption_of::<E>(Err(msg), record, key@))
        };
        assert(is_decryption_of::<E>(after, record, key@));
        let opened = choose|opened: Result<DecryptedData, String>| #[trigger]
            decrypts_to::<E>(record.data, record_binding(record), key@, opened) && match (
                opened,
                after,
            ) {
                (Ok(data), Ok(plain)) => only_data_differs(record, plain) && plain.data == data@,
                (Err(e), Err(msg)) => msg == e@,
                _ => false,
            };
        let (e, a, k) = choose|e: EncryptedData, a: AdditionalData<'static>, k: &'static [u8; 32]|
            #[trigger] call_ensures(E::decrypt, (e, a, k), opened) && e@ == record.data && a@
                == record_binding(record) && k@ == key@;
        (e, a, k, opened)
    } else {
        arbitrary()
    }
}

proof fn lemma_transfers_are_filtered(ops: Seq<Operation>)
    ensures
        transfers(ops) == ops.filter(|op: Operation| !(op is Noop)),
    decreases ops.len(),
{
    reveal(Seq::filter);
    if ops.len() > 0 {
        lemma_transfers_are_filtered(ops.drop_last());
    }
}

/// Carrying out operations begins with the first of those that move records, the others of them waiting
/// in their order, and nothing counted. Where none moves records, it is over.
pub proof fn law_remote_begins_with_the_first_transfer(ops: Vec<Operation>, state: SyncRemote)
    requires
        call_ensures(SyncRemote::begin, (ops,), state),
    ensures
        ({
            let left = ops@.filter(|op: Operation| !(op is Noop));
            &&& left.len() == 0 ==> (state matches SyncRemote::Done(Ok((count, ids))) && count == 0
                && ids@.len() == 0)
            &&& left.len() > 0 ==> (state matches SyncRemote::Transfer {
                op,
                pending,
                uploaded,
                downloaded,
            } && {
                &&& op == left[0]
                &&& pending@ == left.skip(1)
                &&& uploaded == 0
                &&& downloaded@.len() == 0
            })
        }),
{
    lemma_transfers_are_filtered(ops@);
}

/// A transfer that succeeded adds what it counted, or the ids that it brought, to what there was, and
/// the next one follows, or the end. A failure is handed on as it came. What was not asked for
/// changes nothing.
pub proof fn law_remote_adds_what_each_transfer_gave(
    state: SyncRemote,
    event: TransferEvent,
    next: SyncRemote,
) -> (sum: (int, Seq<RecordId>))
    requires
        call_ensures(sync_remote, (state, event), next),
    ensures
        (state is Transfer && state->op is Upload && event is Uploaded && event->Uploaded_0 is Ok)
            ==> sum == (state->uploaded + event->Uploaded_0->Ok_0, state->downloaded@),
        (state is Transfer && state->op is Download && event is Downloaded && event->Downloaded_0
            is Ok) ==> sum == (
            state->uploaded as int,
            state->downloaded@ + event->Downloaded_0->Ok_0@,
        ),
        (state is Transfer && ((state->op is Upload && event is Uploaded && event->Uploaded_0
            is Ok) || (state->op is Download && event is Downloaded && event->Downloaded_0
            is Ok))) ==> {
            &&& state->pending@.len() == 0 ==> (next matches SyncRemote::Done(Ok((count, ids)))
                && count == sum.0 && ids@ == sum.1)
            &&& state->pending@.len() > 0 ==> {
                &&& next is Transfer
                &&& next->op == state->pending@[0]
                &&& next->pending@ == state->pending@.skip(1)
                &&& next->uploaded == sum.0
                &&& next->downloaded@ == sum.1
            }
        },
        (state is Transfer && state->op is Upload && event is Uploaded && event->Uploaded_0 is Err)
            ==> next == SyncRemote::Done(Err(event->Uploaded_0->Err_0)),
        (state is Transfer && state->op is Download && event is Downloaded && event->Downloaded_0
            is Err) ==> next == SyncRemote::Done(Err(event->Downloaded_0->Err_0)),
        (state is Done || (state->op is Upload && !(event is Uploaded)) || (state->op is Download
            && !(event is Downloaded)) || state->op is Noop) ==> next == state,
{
    match (state, event) {
        (
            SyncRemote::Transfer { op: Operation::Upload { .. }, uploaded, downloaded, .. },
            TransferEvent::Uploaded(Ok(count)),
        ) => (uploaded + count, downloaded@),
        (
            SyncRemote::Transfer { op: Operation::Download { .. }, uploaded, downloaded, .. },
            TransferEvent::Downloaded(Ok(ids)),
        ) => (uploaded as int, downloaded@ + ids@),
        _ => arbitrary(),
    }
}

/// What one step of carrying out operations adds: the operation that succeeded, what it counted and the
/// ids that it brought.
pub open spec fn gain(state: SyncRemote, event: TransferEvent) -> (
    Seq<Operation>,
    int,
    Seq<RecordId>,
) {
    match (state, event) {
        (
            SyncRemote::Transfer { op: Operation::Upload { local, remote, host, tag }, .. },
            TransferEvent::Uploaded(Ok(count)),
        ) => (
            seq![Operation::Upload { local, remote, host, tag }],
            count as int,
            Seq::empty(),
        ),
        (
            SyncRemote::Transfer { op: Operation::Download { local, remote, host, tag }, .. },
            TransferEvent::Downloaded(Ok(ids)),
        ) => (seq![Operation::Download { local, remote, host, tag }], 0, ids@),
        _ => (Seq::empty(), 0, Seq::empty()),
    }
}

/// Where the operations are all carried out, those that succeeded are exactly those that move records,
/// each once and in their order; the number is the sum of what the uploads counted, and the ids are
/// those that the downloads brought, one behind the other. What had succeeded, was counted and was
/// brought after each place is returned.
pub proof fn law_remote_result_is_the_sum(
    states: Seq<SyncRemote>,
    events: Seq<TransferEvent>,
    operations: Vec<Operation>,
    n: int,
) -> (sums: (Seq<Seq<Operation>>, Seq<int>, Seq<Seq<RecordId>>))
    requires
        is_sync_remote_run(states, events),
        call_ensures(SyncRemote::begin, (operations,), states[0]),
        0 <= n < states.len(),
    ensures
        sums.0.len() == states.len() && sums.1.len() == states.len() && sums.2.len()
            == states.len(),
        sums.0[0].len() == 0 && sums.1[0] == 0 && sums.2[0].len() == 0,
        forall|i: int|
            #![trigger events[i]]
            0 <= i < events.len() ==> {
                &&& sums.0[i + 1] == sums.0[i] + gain(states[i], events[i]).0
                &&& sums.1[i + 1] == sums.1[i] + gain(states[i], events[i]).1
                &&& sums.2[i + 1] == sums.2[i] + gain(states[i], events[i]).2
            },
        states[n] matches SyncRemote::Done(Ok((count, ids))) ==> {
            &&& sums.0[n] == operations@.filter(|op: Operation| !(op is Noop))
            &&& count == sums.1[n]
            &&& ids@ == sums.2[n]
        },
        states[n] matches SyncRemote::Transfer { op, pending, .. } ==> sums.0[n] + seq![op]
            + pending@ == operations@.filter(|op: Operation| !(op is Noop)),
{
    let sums = (
        Seq::new(states.len(), |i: int| finished(states, events, i)),
        Seq::new(states.len(), |i: int| uploaded_by(states, events, i)),
        Seq::new(states.len(), |i: int| downloaded_by(states, events, i)),
    );
    assert forall|i: int| #![trigger events[i]] 0 <= i < events.len() implies {
        &&& sums.0[i + 1] == sums.0[i] + gain(states[i], events[i]).0
        &&& sums.1[i + 1] == sums.1[i] + gain(states[i], events[i]).1
        &&& sums.2[i + 1] == sums.2[i] + gain(states[i], events[i]).2
    } by {
        let before = finished(states, events, i);
        match finished_at(states, events, i) {
            Some(op) => {
                assert(before.push(op) =~= before + seq![op]);
            },
            None => {
                assert(before =~= before + Seq::<Operation>::empty());
            },
        }
    }
    lemma_transfers_are_filtered(operations@);
    law_operations_run_in_order(states, events, operations@, n);
    if states[n] is Transfer {
        let op = states[n]->op;
        assert(sums.0[n].push(op) =~= sums.0[n] + seq![op]);
    }
    sums
}

/// The steps of carrying out operations are those that [`sync_remote`] takes, and the steps of a sync
/// those that [`sync`] takes.
pub proof fn law_sync_steps(
    remote: SyncRemote,
    transfer: TransferEvent,
    next_remote: SyncRemote,
    state: SyncState,
    event: SyncEvent,
    next: SyncState,
)
    requires
        call_ensures(sync_remote, (remote, transfer), next_remote),
        call_ensures(sync, (state, event), next),
    ensures
        sync_remote_step(remote, transfer, next_remote),
        sync_step(state, event, next),
{
}

/// A sync ends with what its transfers gave, whatever that is.
pub proof fn law_sync_gives_what_was_transferred(
    operations: Vec<Operation>,
    page_size: u64,
    res: Result<(i64, Vec<RecordId>), SyncError>,
    next: SyncState,
)
    requires
        call_ensures(
            sync,
            (SyncState::Transfer { operations, page_size }, SyncEvent::Transferred(res)),
            next,
        ),
    ensures
        next == SyncState::Done(res),
{
}

/// In every run of a sync, what the transfers gave is the state right behind them, and stays it.
pub proof fn law_result_of_the_transfers_is_final(
    states: Seq<SyncState>,
    events: Seq<SyncEvent>,
    i: int,
    n: int,
    res: Result<(i64, Vec<RecordId>), SyncError>,
)
    requires
        is_sync_run(states, events),
        0 <= i < n < states.len(),
        states[i] is Transfer,
        events[i] == SyncEvent::Transferred(res),
    ensures
        states[n] == SyncState::Done(res),
    decreases n,
{
    let event = events[n - 1];
    if i < n - 1 {
        law_result_of_the_transfers_is_final(states, events, i, n - 1, res);
    }
}

/// A sync finds the differences once it is connected, and hands what was found, unchanged, to the check
/// of the key. A failure of any of the three ends it, as it came.
pub proof fn law_sync_hands_on_what_was_found(state: SyncState, event: SyncEvent, next: SyncState)
    requires
        call_ensures(sync, (state, event), next),
    ensures
        (state is Connect && event is Connected && event->Connected_0 is Ok) ==> next
            == SyncState::Diff,
        (state is Connect && event is Connected && event->Connected_0 is Err) ==> next
            == SyncState::Done(Err(event->Connected_0->Err_0)),
        (state is Diff && event is Diffed && event->Diffed_0 is Ok) ==> next == (
        SyncState::CheckKey {
            diffs: event->Diffed_0->Ok_0.0,
            remote_index: event->Diffed_0->Ok_0.1,
        }),
        (state is Diff && event is Diffed && event->Diffed_0 is Err) ==> next == SyncState::Done(
            Err(event->Diffed_0->Err_0),
        ),
        (state is CheckKey && event is KeyChecked && event->KeyChecked_0 is Err) ==> next
            == SyncState::Done(Err(event->KeyChecked_0->Err_0)),
        (state is Done || (state is Connect && !(event is Connected)) || (state is Diff && !(
        event is Diffed)) || (state is CheckKey && !(event is KeyChecked)) || (state is Transfer
            && !(event is Transferred))) ==> next == state,
{
}

/// With a key that will do, a sync carries out what the differences resolve to, all of it and in that
/// order, in pages of a hundred records; where they do not resolve, it fails as that fails.
pub proof fn law_sync_carries_out_the_plan(
    diffs: Vec<Diff>,
    remote_index: RecordStatus,
    next: SyncState,
    planned: Result<Vec<Operation>, SyncError>,
)
    requires
        call_ensures(
            sync,
            (SyncState::CheckKey { diffs, remote_index }, SyncEvent::KeyChecked(Ok(()))),
            next,
        ),
        call_ensures(operations, (diffs,), planned),
    ensures
        match planned {
            Ok(ops) => next matches SyncState::Transfer { operations: out, page_size } && out@
                == ops@ && page_size == 100,
            Err(e) => next matches SyncState::Done(Err(SyncError::SyncLogicError { msg })) && e
                matches SyncError::SyncLogicError { msg: said } && msg@ == said@,
        },
{
    if planned is Ok && next is Transfer {
        lemma_stable_sort_unique(
            next->Transfer_operations@,
            planned->Ok_0@,
            operations_for(diffs@),
        );
    }
}

} // verus!
