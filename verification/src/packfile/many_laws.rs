//! What holds of the bundles of many manifests, said of what the batches bring and what is returned.

use vstd::prelude::*;

use crate::packfile::batch::Batch;
use crate::packfile::download::{
    download_many_step, download_packed_many, is_download_many_run, joined,
    law_covered_ids_in_order, lists_are, DownloadError, DownloadMany,
};
use crate::packfile::upload::{
    is_upload_many_run, law_bundle_ids_in_order, replies_are, upload_many_step,
    upload_packed_many, UploadError, UploadMany,
};
use crate::record::domain::RecordId;

verus! {

/// Where each of the lists starts, when they stand one behind the other.
pub open spec fn are_offsets(offsets: Seq<int>, lists: Seq<Vec<RecordId>>) -> bool {
    &&& offsets.len() == lists.len() + 1
    &&& offsets[0] == 0
    &&& forall|i: int|
        #![trigger lists[i]]
        0 <= i < lists.len() ==> offsets[i + 1] == offsets[i] + lists[i]@.len()
}

/// `all` has as many entries as the lists together, and at the place where a list starts and `k` further
/// on stands what that list has at `k`.
pub open spec fn stand_in_turn(
    all: Seq<RecordId>,
    offsets: Seq<int>,
    lists: Seq<Vec<RecordId>>,
) -> bool {
    &&& all.len() == offsets[lists.len() as int]
    &&& forall|i: int, k: int|
        0 <= i < lists.len() && 0 <= k < lists[i]@.len() ==> #[trigger] lists[i]@[k]
            == all[offsets[i] + k]
}

proof fn lemma_stand_in_turn(lists: Seq<Vec<RecordId>>) -> (offsets: Seq<int>)
    ensures
        are_offsets(offsets, lists),
        stand_in_turn(joined(lists), offsets, lists),
        forall|i: int| 0 <= i < offsets.len() ==> 0 <= #[trigger] offsets[i] <= joined(lists).len(),
    decreases lists.len(),
{
    if lists.len() == 0 {
        seq![0int]
    } else {
        let n = lists.len() as int;
        let (first, last) = (lists.drop_last(), lists.last()@);
        let before = lemma_stand_in_turn(first);
        let offsets = before.push(before[n - 1] + last.len());
        assert forall|i: int|
            #![trigger lists[i]]
            0 <= i < lists.len() implies offsets[i + 1] == offsets[i] + lists[i]@.len() by {
            if i < n - 1 {
                assert(first[i] == lists[i]);
            }
        }
        let (all, joint) = (joined(lists), joined(first));
        assert(all == joint + last);
        assert forall|i: int, k: int|
            0 <= i < lists.len() && 0 <= k < lists[i]@.len() implies #[trigger] lists[i]@[k]
            == all[offsets[i] + k] by {
            if i < n - 1 {
                assert(first[i] == lists[i]);
                assert(first[i]@[k] == joint[before[i] + k]);
                assert(before[i + 1] == before[i] + first[i]@.len());
            } else {
                assert(offsets[i] == joint.len());
            }
        }
        offsets
    }
}

/// The ids of many manifests have as many entries as the lists of the manifests have together, and the
/// id at the sum of the lengths of the lists before one and `k` further on is the `k`-th of that
/// list. Where each list starts is returned.
pub proof fn law_each_list_is_kept_whole(lists: Seq<Vec<RecordId>>) -> (offsets: Seq<int>)
    ensures
        are_offsets(offsets, lists),
        stand_in_turn(joined(lists), offsets, lists),
{
    lemma_stand_in_turn(lists)
}

/// What a batch brought stands behind what there was, list by list and each list whole; then comes the
/// next batch, of at most eight, right behind this one, or the end. A failure is handed on as it
/// came, and what is done stays done. All the ids, and where each list starts behind those there
/// were, are returned.
pub proof fn law_downloads_gather_every_list(
    state: DownloadMany,
    expanded: Result<Vec<Vec<RecordId>>, DownloadError>,
    next: DownloadMany,
) -> (at: (Seq<RecordId>, Seq<int>))
    requires
        call_ensures(download_packed_many, (state, expanded), next),
    ensures
        state is Done ==> next == state,
        (state is Batch && expanded is Err) ==> next == DownloadMany::Done(Err(expanded->Err_0)),
        (state is Batch && expanded is Ok) ==> {
            let (before, lists) = (state->Batch_ids@, expanded->Ok_0@);
            let (all, offsets) = at;
            &&& are_offsets(offsets, lists)
            &&& all.len() == before.len() + offsets[lists.len() as int]
            &&& forall|i: int| 0 <= i < before.len() ==> #[trigger] before[i] == all[i]
            &&& forall|i: int, k: int|
                0 <= i < lists.len() && 0 <= k < lists[i]@.len() ==> #[trigger] lists[i]@[k]
                    == all[before.len() + offsets[i] + k]
            &&& follows_download(next, state->Batch_batch.to, state->Batch_total, all)
        },
{
    if state is Batch && expanded is Ok {
        let (before, lists) = (state->Batch_ids@, expanded->Ok_0@);
        let offsets = lemma_stand_in_turn(lists);
        let all = before + joined(lists);
        assert forall|i: int, k: int|
            0 <= i < lists.len() && 0 <= k < lists[i]@.len() implies #[trigger] lists[i]@[k]
            == all[before.len() + offsets[i] + k] by {
            assert(offsets[i + 1] == offsets[i] + lists[i]@.len());
            assert(0 <= offsets[i] && offsets[i + 1] <= joined(lists).len());
            assert(lists[i]@[k] == joined(lists)[offsets[i] + k]);
        }
        (all, offsets)
    } else {
        arbitrary()
    }
}

/// What comes when the manifests before `from` are done: a batch of the next ones, eight or as many as
/// are left, or the end.
pub open spec fn follows_download(
    state: DownloadMany,
    from: usize,
    total: usize,
    done: Seq<RecordId>,
) -> bool {
    if from >= total {
        state is Done && state->Done_0 is Ok && state->Done_0->Ok_0@ == done
    } else {
        &&& state is Batch
        &&& is_next_batch(state->Batch_batch, from, total)
        &&& state->Batch_total == total
        &&& state->Batch_ids@ == done
    }
}

/// A batch that starts at `from` and holds eight, or all that are left.
pub open spec fn is_next_batch(batch: Batch, from: usize, total: usize) -> bool {
    &&& batch.from == from
    &&& from < batch.to <= total
    &&& batch.to <= from + 8
    &&& batch.to == total || batch.to == from + 8
}

/// What comes when the bundles before `from` are uploaded: a batch of the next ones, eight or as many as
/// are left, or the end.
pub open spec fn follows_upload(
    state: UploadMany,
    from: usize,
    total: usize,
    done: Seq<RecordId>,
) -> bool {
    if from >= total {
        state is Done && state->Done_0 is Ok && state->Done_0->Ok_0@ == done
    } else {
        &&& state is Batch
        &&& is_next_batch(state->Batch_batch, from, total)
        &&& state->Batch_total == total
        &&& state->bundle_ids@ == done
    }
}

/// Many manifests begin with the first of them, and with no ids; none at all are done at once.
pub proof fn law_many_begin_with_the_first(total: usize, down: DownloadMany, up: UploadMany)
    requires
        call_ensures(DownloadMany::begin, (total,), down),
        call_ensures(UploadMany::begin, (total,), up),
    ensures
        follows_download(down, 0, total, Seq::empty()),
        follows_upload(up, 0, total, Seq::empty()),
{
}

/// What a batch shipped stands behind what there was, each id once and in its order; then comes the next
/// batch, right behind this one, or the end. A failure is handed on as it came, and what is done
/// stays done.
pub proof fn law_uploads_gather_every_id(
    state: UploadMany,
    shipped: Result<Vec<RecordId>, UploadError>,
    next: UploadMany,
)
    requires
        call_ensures(upload_packed_many, (state, shipped), next),
    ensures
        state is Done ==> next == state,
        (state is Batch && shipped is Err) ==> next == UploadMany::Done(Err(shipped->Err_0)),
        (state is Batch && shipped is Ok) ==> follows_upload(
            next,
            state->Batch_batch.to,
            state->Batch_total,
            state->bundle_ids@ + shipped->Ok_0@,
        ),
{
}

/// The steps of many manifests are those that [`download_packed_many`] and [`upload_packed_many`] take.
pub proof fn law_many_steps(
    down: DownloadMany,
    expanded: Result<Vec<Vec<RecordId>>, DownloadError>,
    down_next: DownloadMany,
    up: UploadMany,
    shipped: Result<Vec<RecordId>, UploadError>,
    up_next: UploadMany,
)
    requires
        call_ensures(download_packed_many, (down, expanded), down_next),
        call_ensures(upload_packed_many, (up, shipped), up_next),
    ensures
        download_many_step(down, expanded, down_next),
        upload_many_step(up, shipped, up_next),
{
}

/// Where every batch brings the lists of its own manifests, a download of many that succeeds returns the
/// ids of all of them: as many as the lists have together, and each at its place in its list, behind
/// the lists before it. Where each list starts is returned.
pub proof fn law_downloads_return_every_id(
    states: Seq<DownloadMany>,
    expanded: Seq<Result<Vec<Vec<RecordId>>, DownloadError>>,
    total: usize,
    lists: Seq<Vec<RecordId>>,
    n: int,
) -> (offsets: Seq<int>)
    requires
        is_download_many_run(states, expanded),
        call_ensures(DownloadMany::begin, (total,), states[0]),
        lists.len() == total,
        forall|i: int|
            #![trigger expanded[i]]
            (0 <= i < expanded.len() && states[i] is Batch && expanded[i] is Ok)
                ==> expanded[i]->Ok_0@ == lists.subrange(
                states[i]->Batch_batch.from as int,
                states[i]->Batch_batch.to as int,
            ),
        0 <= n < states.len(),
    ensures
        are_offsets(offsets, lists),
        states[n] matches DownloadMany::Done(Ok(all)) ==> stand_in_turn(all@, offsets, lists),
        states[n] matches DownloadMany::Batch { batch, .. } ==> is_next_batch(
            batch,
            batch.from,
            total,
        ),
{
    assert(lists_are(states, expanded, lists)) by {
        assert forall|i: int| #![trigger expanded[i]] 0 <= i < expanded.len() implies match (
            states[i],
            expanded[i],
        ) {
            (DownloadMany::Batch { batch, .. }, Ok(some)) => some@ == lists.subrange(
                batch.from as int,
                batch.to as int,
            ),
            _ => true,
        } by {
            if states[i] is Batch && expanded[i] is Ok {
                assert(expanded[i]->Ok_0@ == lists.subrange(
                    states[i]->Batch_batch.from as int,
                    states[i]->Batch_batch.to as int,
                ));
            }
        }
    }
    law_covered_ids_in_order(states, expanded, total, lists, n);
    lemma_stand_in_turn(lists)
}

/// Where every batch ships the bundles of its own manifests, an upload of many that succeeds returns the
/// id of every bundle, in the order of the manifests.
pub proof fn law_uploads_return_every_id(
    states: Seq<UploadMany>,
    shipped: Seq<Result<Vec<RecordId>, UploadError>>,
    total: usize,
    bundle_ids: Seq<RecordId>,
    n: int,
)
    requires
        is_upload_many_run(states, shipped),
        call_ensures(UploadMany::begin, (total,), states[0]),
        bundle_ids.len() == total,
        forall|i: int|
            #![trigger shipped[i]]
            (0 <= i < shipped.len() && states[i] is Batch && shipped[i] is Ok)
                ==> shipped[i]->Ok_0@ == bundle_ids.subrange(
                states[i]->Batch_batch.from as int,
                states[i]->Batch_batch.to as int,
            ),
        0 <= n < states.len(),
    ensures
        states[n] matches UploadMany::Done(Ok(all)) ==> all@ == bundle_ids,
        states[n] matches UploadMany::Batch { batch, bundle_ids: done, .. } ==> {
            &&& is_next_batch(batch, batch.from, total)
            &&& done@ == bundle_ids.take(batch.from as int)
        },
{
    assert(replies_are(states, shipped, bundle_ids)) by {
        assert forall|i: int| #![trigger shipped[i]] 0 <= i < shipped.len() implies match (
            states[i],
            shipped[i],
        ) {
            (UploadMany::Batch { batch, .. }, Ok(ids)) => ids@ == bundle_ids.subrange(
                batch.from as int,
                batch.to as int,
            ),
            _ => true,
        } by {
            if states[i] is Batch && shipped[i] is Ok {
                assert(shipped[i]->Ok_0@ == bundle_ids.subrange(
                    states[i]->Batch_batch.from as int,
                    states[i]->Batch_batch.to as int,
                ));
            }
        }
    }
    law_bundle_ids_in_order(states, shipped, total, bundle_ids, n);
}

/// What is said of a bundle that was not uploaded, and of history that was not downloaded: the step that
/// failed, and what was said of it.
pub proof fn law_bundle_errors_say_why(
    e: &UploadError,
    text: String,
    f: &DownloadError,
    said: String,
)
    requires
        call_ensures(UploadError::message, (e,), text),
        call_ensures(DownloadError::message, (f,), said),
    ensures
        text@ == e.text(),
        said@ == f.text(),
        text@ == match *e {
            UploadError::PackManifest(why) => "failed to load the packfile manifest: "@
                + why.text(),
            UploadError::Store(msg) => "failed to read the history range from the store: "@ + msg@,
            UploadError::Decrypt(msg) => "failed to decrypt a history record: "@ + msg@,
            UploadError::Pack(why) => "failed to pack the bundle: "@ + why.text(),
            UploadError::Api(msg) => "bundle upload failed: "@ + msg@,
        },
        said@ == match *f {
            DownloadError::PackManifest(why) => "failed to load the packfile manifest: "@
                + why.text(),
            DownloadError::Api(msg) => "bundle download failed: "@ + msg@,
            DownloadError::Unpack(why) => "failed to unpack the bundle: "@ + why.text(),
            DownloadError::Store(msg) => "failed to store the unpacked history: "@ + msg@,
        },
{
}

} // verus!
