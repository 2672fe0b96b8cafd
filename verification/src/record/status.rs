//! What a store holds: the head of every host and tag, and how two stores differ.

use vstd::prelude::*;

use crate::order::{
    distinct_keys, is_sorted, key_leq, lemma_sort_distinct, lemma_sort_same_items, stable_sort,
    SortKey, SortKeyed,
};
use crate::record::domain::{Diff, HostId, RecordIdx};
use crate::text::{same_text, text_le, text_leq};

verus! {

/// The index of the last record of one host and tag.
#[derive(Clone, Debug, PartialEq, Eq)]
pub struct Head {
    pub host: HostId,
    pub tag: String,
    pub idx: RecordIdx,
}

/// The heads of a store, one for each host and tag that it has records of.
#[derive(Clone, Debug, PartialEq, Eq)]
pub struct RecordStatus {
    heads: Vec<Head>,
}

/// Whether the head at `i` is that of `host` and `tag`.
pub open spec fn is_head_of(heads: Seq<Head>, i: int, host: HostId, tag: Seq<char>) -> bool {
    0 <= i < heads.len() && heads[i].host == host && heads[i].tag@ == tag
}

impl RecordStatus {
    /// The heads in the order in which they are walked.
    pub closed spec fn heads(self) -> Seq<Head> {
        self.heads@
    }

    /// No host and tag occurs twice.
    pub open spec fn wf(self) -> bool {
        forall|i: int, j: int|
            0 <= i < j < self.heads().len() ==> !((#[trigger] self.heads()[i]).host == (
            #[trigger] self.heads()[j]).host && self.heads()[i].tag@ == self.heads()[j].tag@)
    }

    /// The head of a host and tag, if the store has records of it.
    pub open spec fn head(self, host: HostId, tag: Seq<char>) -> Option<RecordIdx> {
        if exists|i: int| #[trigger] is_head_of(self.heads(), i, host, tag) {
            Some(
                self.heads()[choose|i: int| #[trigger]
                    is_head_of(self.heads(), i, host, tag)].idx,
            )
        } else {
            None
        }
    }

    /// A head that is there is the one that is found.
    pub proof fn lemma_head_found(self, i: int)
        requires
            self.wf(),
            0 <= i < self.heads().len(),
        ensures
            self.head(self.heads()[i].host, self.heads()[i].tag@) == Some(self.heads()[i].idx),
    {
        let (host, tag) = (self.heads()[i].host, self.heads()[i].tag@);
        assert(is_head_of(self.heads(), i, host, tag));
        let j = choose|j: int| #[trigger] is_head_of(self.heads(), j, host, tag);
        if i < j {
            assert(!(self.heads()[i].host == self.heads()[j].host && self.heads()[i].tag@
                == self.heads()[j].tag@));
        } else if j < i {
            assert(!(self.heads()[j].host == self.heads()[i].host && self.heads()[j].tag@
                == self.heads()[i].tag@));
        }
    }

    /// The status of an empty store.
    pub fn new() -> (status: Self)
        ensures
            status.wf(),
            status.heads() == Seq::<Head>::empty(),
    {
        RecordStatus { heads: Vec::new() }
    }

    /// How many heads there are.
    pub fn len(&self) -> (n: usize)
        ensures
            n == self.heads().len(),
    {
        self.heads.len()
    }

    /// The head at a place of the walk.
    pub fn at(&self, i: usize) -> (head: &Head)
        requires
            i < self.heads().len(),
        ensures
            *head == self.heads()[i as int],
    {
        &self.heads[i]
    }

    fn position(&self, host: HostId, tag: &str) -> (at: Option<usize>)
        ensures
            match at {
                Some(i) => is_head_of(self.heads(), i as int, host, tag@),
                None => forall|i: int| !#[trigger] is_head_of(self.heads(), i, host, tag@),
            },
    {
        let mut i: usize = 0;
        while i < self.heads.len()
            invariant
                i <= self.heads@.len(),
                forall|j: int| 0 <= j < i ==> !#[trigger] is_head_of(self.heads@, j, host, tag@),
            decreases self.heads@.len() - i,
        {
            if self.heads[i].host == host && same_text(self.heads[i].tag.as_str(), tag) {
                return Some(i);
            }
            i = i + 1;
        }
        None
    }

    /// The head of a host and tag.
    pub fn get(&self, host: HostId, tag: &str) -> (idx: Option<RecordIdx>)
        requires
            self.wf(),
        ensures
            idx == self.head(host, tag@),
    {
        match self.position(host, tag) {
            Some(i) => {
                proof {
                    self.lemma_head_found(i as int);
                }
                Some(self.heads[i].idx)
            },
            None => None,
        }
    }

    /// Records that the head of a host and tag is at `idx`.
    pub fn set(&mut self, host: HostId, tag: String, idx: RecordIdx)
        requires
            old(self).wf(),
        ensures
            final(self).wf(),
            final(self).head(host, tag@) == Some(idx),
            forall|h: HostId, t: Seq<char>|
                !(h == host && t == tag@) ==> #[trigger] final(self).head(h, t) == old(self).head(
                    h,
                    t,
                ),
    {
        let ghost before = *self;
        let at = self.position(host, tag.as_str());
        let ghost new_tag = tag@;
        let head = Head { host, tag, idx };
        let i: usize = match at {
            Some(i) => {
                self.heads.set(i, head);
                i
            },
            None => {
                self.heads.push(head);
                self.heads.len() - 1
            },
        };
        proof {
            let after = *self;
            let (a, b) = (before.heads(), after.heads());
            assert forall|j: int, k: int| 0 <= j < k < b.len() implies !((#[trigger] b[j]).host == (
            #[trigger] b[k]).host && b[j].tag@ == b[k].tag@) by {
                if k != i && j != i {
                    assert(a[j] == b[j] && a[k] == b[k]);
                } else if k == i && j < a.len() {
                    assert(a[j] == b[j]);
                    assert(is_head_of(a, j, a[j].host, a[j].tag@));
                    if at is Some {
                        assert(a[j].host != a[k].host || a[j].tag@ != a[k].tag@);
                    } else {
                        assert(!is_head_of(a, j, host, new_tag));
                    }
                } else {
                    assert(j == i);
                    assert(a[k] == b[k]);
                    assert(a[j].host != a[k].host || a[j].tag@ != a[k].tag@);
                }
            }
            assert(after.wf());
            after.lemma_head_found(i as int);
            assert forall|h: HostId, t: Seq<char>| !(h == host && t == new_tag) implies #[trigger]
                after.head(h, t) == before.head(h, t) by {
                assert forall|j: int| is_head_of(b, j, h, t) implies is_head_of(a, j, h, t) by {
                    assert(j != i);
                    assert(a[j] == b[j]);
                }
                assert forall|j: int| is_head_of(a, j, h, t) implies is_head_of(b, j, h, t) by {
                    assert(j != i);
                    assert(a[j] == b[j]);
                }
                if exists|j: int| is_head_of(a, j, h, t) {
                    let j = choose|j: int| is_head_of(a, j, h, t);
                    assert(is_head_of(b, j, h, t));
                    assert(a[j] == b[j]);
                    before.lemma_head_found(j);
                    after.lemma_head_found(j);
                } else {
                    assert(forall|j: int| !is_head_of(b, j, h, t));
                }
            }
        }
    }
}

impl SortKeyed for Diff {
    /// By host, then by tag.
    open spec fn sort_key(&self) -> SortKey {
        SortKey { rank: 0, host: self.host.0 as int, priority: 0, tag: self.tag@ }
    }

    fn at_or_before(&self, other: &Self) -> (r: bool) {
        if self.host.0 != other.host.0 {
            self.host.0 < other.host.0
        } else {
            text_le(self.tag.as_str(), other.tag.as_str())
        }
    }
}

/// A diff that says of its host and tag what the two stores have, where they do not agree.
pub open spec fn is_diff_between(diff: Diff, local: RecordStatus, remote: RecordStatus) -> bool {
    &&& diff.local == local.head(diff.host, diff.tag@)
    &&& diff.remote == remote.head(diff.host, diff.tag@)
    &&& diff.local != diff.remote
}

/// The list has a diff for a host and tag.
pub open spec fn has_diff(diffs: Seq<Diff>, host: HostId, tag: Seq<char>) -> bool {
    exists|i: int|
        0 <= i < diffs.len() && (#[trigger] diffs[i]).host == host && diffs[i].tag@ == tag
}

/// The differences between two stores: one for each host and tag on which they do not agree, and
/// none else, by host and tag.
pub open spec fn is_diff_list(diffs: Seq<Diff>, local: RecordStatus, remote: RecordStatus) -> bool {
    &&& forall|i: int|
        0 <= i < diffs.len() ==> is_diff_between(#[trigger] diffs[i], local, remote)
    &&& forall|host: HostId, tag: Seq<char>|
        #![trigger has_diff(diffs, host, tag)]
        local.head(host, tag) != remote.head(host, tag) ==> has_diff(diffs, host, tag)
    &&& distinct_keys(diffs)
    &&& is_sorted(diffs)
}

impl RecordStatus {
    /// How this store differs from `other`: the heads here that the other store has elsewhere or
    /// not at all, and those that only the other store has.
    pub fn diff(&self, other: &RecordStatus) -> (diffs: Vec<Diff>)
        requires
            self.wf(),
            other.wf(),
        ensures
            is_diff_list(diffs@, *self, *other),
    {
        let mut found: Vec<Diff> = Vec::new();
        let mut i: usize = 0;
        while i < self.heads.len()
            invariant
                self.wf(),
                other.wf(),
                i <= self.heads@.len(),
                forall|k: int|
                    0 <= k < found@.len() ==> is_diff_between(#[trigger] found@[k], *self, *other),
                forall|k: int|
                    0 <= k < found@.len() ==> exists|j: int|
                        0 <= j < i && is_head_of(
                            self.heads@,
                            j,
                            (#[trigger] found@[k]).host,
                            found@[k].tag@,
                        ),
                forall|j: int|
                    0 <= j < i && self.head((#[trigger] self.heads@[j]).host, self.heads@[j].tag@)
                        != other.head(self.heads@[j].host, self.heads@[j].tag@) ==> has_diff(
                        found@,
                        self.heads@[j].host,
                        self.heads@[j].tag@,
                    ),
                distinct_keys(found@),
            decreases self.heads@.len() - i,
        {
            let head = &self.heads[i];
            let there = other.get(head.host, head.tag.as_str());
            proof {
                self.lemma_head_found(i as int);
            }
            let differs = match there {
                Some(idx) => idx != head.idx,
                None => true,
            };
            let ghost before = found@;
            if differs {
                let diff = Diff {
                    host: head.host,
                    tag: head.tag.clone(),
                    local: Some(head.idx),
                    remote: there,
                };
                found.push(diff);
                proof {
                    let n = before.len() as int;
                    assert(is_head_of(self.heads@, i as int, found@[n].host, found@[n].tag@));
                    assert(has_diff(found@, head.host, head.tag@)) by {
                        assert(found@[n].host == head.host && found@[n].tag@ == head.tag@);
                    }
                    assert forall|a: int, b: int| 0 <= a < b < found@.len() implies #[trigger]
                        found@[a].sort_key() != #[trigger] found@[b].sort_key() by {
                        if b == n {
                            assert(found@[a] == before[a]);
                            let j = choose|j: int|
                                0 <= j < i && is_head_of(
                                    self.heads@,
                                    j,
                                    before[a].host,
                                    before[a].tag@,
                                );
                            assert(!(self.heads()[j].host == self.heads()[i as int].host
                                && self.heads()[j].tag@ == self.heads()[i as int].tag@));
                        } else {
                            assert(found@[a] == before[a] && found@[b] == before[b]);
                        }
                    }
                }
            }
            proof {
                assert(found@.take(before.len() as int) =~= before);
                lemma_has_diff_grows(before, found@);
            }
            i = i + 1;
            proof {
                assert forall|k: int| 0 <= k < found@.len() implies exists|j: int|
                    0 <= j < i && is_head_of(
                        self.heads@,
                        j,
                        (#[trigger] found@[k]).host,
                        found@[k].tag@,
                    ) by {
                    if k < before.len() {
                        assert(found@[k] == before[k]);
                        let j = choose|j: int|
                            0 <= j < i - 1 && is_head_of(
                                self.heads@,
                                j,
                                before[k].host,
                                before[k].tag@,
                            );
                        assert(is_head_of(self.heads@, j, found@[k].host, found@[k].tag@));
                    } else {
                        assert(is_head_of(self.heads@, i - 1, found@[k].host, found@[k].tag@));
                    }
                }
            }
        }
        proof {
            assert forall|k: int| 0 <= k < found@.len() implies self.head(
                (#[trigger] found@[k]).host,
                found@[k].tag@,
            ) is Some by {
                let j = choose|j: int|
                    0 <= j < i && is_head_of(self.heads@, j, found@[k].host, found@[k].tag@);
                assert(is_head_of(self.heads(), j, found@[k].host, found@[k].tag@));
            }
        }
        let mut i: usize = 0;
        while i < other.heads.len()
            invariant
                self.wf(),
                other.wf(),
                i <= other.heads@.len(),
                forall|k: int|
                    0 <= k < found@.len() ==> is_diff_between(#[trigger] found@[k], *self, *other),
                forall|k: int|
                    0 <= k < found@.len() && self.head(
                        (#[trigger] found@[k]).host,
                        found@[k].tag@,
                    ) is None ==> exists|j: int|
                        0 <= j < i && is_head_of(
                            other.heads@,
                            j,
                            found@[k].host,
                            found@[k].tag@,
                        ),
                forall|j: int|
                    0 <= j < self.heads@.len() && self.head(
                        (#[trigger] self.heads@[j]).host,
                        self.heads@[j].tag@,
                    ) != other.head(self.heads@[j].host, self.heads@[j].tag@) ==> has_diff(
                        found@,
                        self.heads@[j].host,
                        self.heads@[j].tag@,
                    ),
                forall|j: int|
                    0 <= j < i && self.head((#[trigger] other.heads@[j]).host, other.heads@[j].tag@)
                        is None ==> has_diff(
                        found@,
                        other.heads@[j].host,
                        other.heads@[j].tag@,
                    ),
                distinct_keys(found@),
            decreases other.heads@.len() - i,
        {
            let head = &other.heads[i];
            proof {
                other.lemma_head_found(i as int);
            }
            let ghost before = found@;
            if self.get(head.host, head.tag.as_str()).is_none() {
                let diff = Diff {
                    host: head.host,
                    tag: head.tag.clone(),
                    local: None,
                    remote: Some(head.idx),
                };
                found.push(diff);
                proof {
                    let n = before.len() as int;
                    assert(has_diff(found@, head.host, head.tag@)) by {
                        assert(found@[n].host == head.host && found@[n].tag@ == head.tag@);
                    }
                    assert forall|a: int, b: int| 0 <= a < b < found@.len() implies #[trigger]
                        found@[a].sort_key() != #[trigger] found@[b].sort_key() by {
                        if b == n {
                            assert(found@[a] == before[a]);
                            if before[a].host == head.host && before[a].tag@ == head.tag@ {
                                let j = choose|j: int|
                                    0 <= j < i && is_head_of(
                                        other.heads@,
                                        j,
                                        before[a].host,
                                        before[a].tag@,
                                    );
                                assert(!(other.heads()[j].host == other.heads()[i as int].host
                                    && other.heads()[j].tag@ == other.heads()[i as int].tag@));
                            }
                        } else {
                            assert(found@[a] == before[a] && found@[b] == before[b]);
                        }
                    }
                }
            }
            proof {
                assert(found@.take(before.len() as int) =~= before);
                lemma_has_diff_grows(before, found@);
            }
            i = i + 1;
            proof {
                assert forall|k: int|
                    0 <= k < found@.len() && self.head(
                        (#[trigger] found@[k]).host,
                        found@[k].tag@,
                    ) is None implies exists|j: int|
                    0 <= j < i && is_head_of(other.heads@, j, found@[k].host, found@[k].tag@) by {
                    if k < before.len() {
                        assert(found@[k] == before[k]);
                        let j = choose|j: int|
                            0 <= j < i - 1 && is_head_of(
                                other.heads@,
                                j,
                                before[k].host,
                                before[k].tag@,
                            );
                        assert(is_head_of(other.heads@, j, found@[k].host, found@[k].tag@));
                    } else {
                        assert(is_head_of(other.heads@, i - 1, found@[k].host, found@[k].tag@));
                    }
                }
            }
        }
        proof {
            assert forall|host: HostId, tag: Seq<char>|
                self.head(host, tag) != other.head(host, tag) implies has_diff(
                found@,
                host,
                tag,
            ) by {
                if self.head(host, tag) is Some {
                    let j = choose|j: int| is_head_of(self.heads(), j, host, tag);
                    assert(self.heads@[j].host == host && self.heads@[j].tag@ == tag);
                } else {
                    let j = choose|j: int| is_head_of(other.heads(), j, host, tag);
                    assert(other.heads@[j].host == host && other.heads@[j].tag@ == tag);
                }
            }
        }
        let ghost unsorted = found@;
        let diffs = stable_sort(found);
        proof {
            lemma_sort_same_items(diffs@, unsorted);
            lemma_sort_distinct(diffs@, unsorted);
            assert forall|i: int| 0 <= i < diffs@.len() implies is_diff_between(
                #[trigger] diffs@[i],
                *self,
                *other,
            ) by {
                assert(diffs@.contains(diffs@[i]));
                let j = choose|j: int| 0 <= j < unsorted.len() && unsorted[j] == diffs@[i];
                assert(is_diff_between(unsorted[j], *self, *other));
            }
            assert forall|host: HostId, tag: Seq<char>|
                #![trigger has_diff(diffs@, host, tag)]
                self.head(host, tag) != other.head(host, tag) implies has_diff(
                diffs@,
                host,
                tag,
            ) by {
                assert(has_diff(unsorted, host, tag));
                let j = choose|j: int|
                    0 <= j < unsorted.len() && (#[trigger] unsorted[j]).host == host
                        && unsorted[j].tag@ == tag;
                assert(unsorted.contains(unsorted[j]));
                assert(diffs@.contains(unsorted[j]));
                let i = choose|i: int| 0 <= i < diffs@.len() && diffs@[i] == unsorted[j];
                assert(diffs@[i].host == host && diffs@[i].tag@ == tag);
            }
        }
        diffs
    }
}

/// A list that grows at its end loses no diff.
proof fn lemma_has_diff_grows(before: Seq<Diff>, after: Seq<Diff>)
    requires
        before.len() <= after.len(),
        after.take(before.len() as int) == before,
    ensures
        forall|host: HostId, tag: Seq<char>| #[trigger]
            has_diff(before, host, tag) ==> has_diff(after, host, tag),
{
    assert forall|host: HostId, tag: Seq<char>| #[trigger]
        has_diff(before, host, tag) implies has_diff(after, host, tag) by {
        let i = choose|i: int|
            0 <= i < before.len() && (#[trigger] before[i]).host == host && before[i].tag@ == tag;
        assert(after[i] == after.take(before.len() as int)[i]);
    }
}

/// None of the heads that a status keeps is passed over in its walk.
proof fn law_no_head_is_passed_over(status: RecordStatus)
    ensures
        status.heads() == status.heads@,
{
}

/// A status starts with no heads, and its heads are walked one for one.
pub proof fn law_heads_are_walked(
    status: &RecordStatus,
    fresh: RecordStatus,
    n: usize,
    i: usize,
    head: &Head,
)
    requires
        call_ensures(RecordStatus::new, (), fresh),
        call_ensures(RecordStatus::len, (status,), n),
        i < n,
        call_ensures(RecordStatus::at, (status, i), head),
    ensures
        fresh.heads().len() == 0,
        n == status.heads().len(),
        *head == status.heads()[i as int],
{
}

/// The head that is found for a host and tag is the index of an entry of exactly that host and tag, and
/// none is found exactly where there is no such entry.
pub proof fn law_head_found_is_there(
    status: &RecordStatus,
    host: HostId,
    tag: &str,
    found: Option<RecordIdx>,
) -> (at: int)
    requires
        status.wf(),
        call_ensures(RecordStatus::get, (status, host, tag), found),
    ensures
        found == status.head(host, tag@),
        match found {
            Some(idx) => {
                &&& 0 <= at < status.heads().len()
                &&& status.heads()[at].host == host
                &&& status.heads()[at].tag@ == tag@
                &&& status.heads()[at].idx == idx
            },
            None => forall|i: int|
                0 <= i < status.heads().len() ==> !((#[trigger] status.heads()[i]).host == host
                    && status.heads()[i].tag@ == tag@),
        },
{
    let heads = status.heads();
    if found is None {
        assert forall|i: int| 0 <= i < heads.len() implies !((#[trigger] heads[i]).host == host
            && heads[i].tag@ == tag@) by {
            assert(!is_head_of(heads, i, host, tag@));
        }
    }
    choose|i: int| #[trigger] is_head_of(heads, i, host, tag@)
}

/// What a lookup finds is what the status is said to have for the host and tag, over its entries alone.
pub proof fn law_head_is_that_of_its_entry(status: RecordStatus, host: HostId, tag: Seq<char>)
    requires
        status.wf(),
    ensures
        forall|i: int|
            0 <= i < status.heads().len() && (#[trigger] status.heads()[i]).host == host
                && status.heads()[i].tag@ == tag ==> status.head(host, tag) == Some(
                status.heads()[i].idx,
            ),
        status.head(host, tag) is Some ==> exists|i: int|
            0 <= i < status.heads().len() && (#[trigger] status.heads()[i]).host == host
                && status.heads()[i].tag@ == tag,
{
    assert forall|i: int|
        0 <= i < status.heads().len() && (#[trigger] status.heads()[i]).host == host
            && status.heads()[i].tag@ == tag implies status.head(host, tag) == Some(
        status.heads()[i].idx,
    ) by {
        status.lemma_head_found(i);
    }
    if status.head(host, tag) is Some {
        let i = choose|i: int| #[trigger] is_head_of(status.heads(), i, host, tag);
        assert(status.heads()[i].host == host);
    }
}

/// The diff of two stores names a host and tag exactly where their heads differ, once, with the two
/// heads; the diffs stand by host, and those of one host by tag.
pub proof fn law_diff_names_what_differs(
    local: &RecordStatus,
    remote: &RecordStatus,
    diffs: Vec<Diff>,
    host: HostId,
    tag: Seq<char>,
) -> (at: int)
    requires
        call_ensures(RecordStatus::diff, (local, remote), diffs),
    ensures
        local.head(host, tag) != remote.head(host, tag) ==> {
            &&& 0 <= at < diffs@.len()
            &&& diffs@[at].host == host
            &&& diffs@[at].tag@ == tag
            &&& diffs@[at].local == local.head(host, tag)
            &&& diffs@[at].remote == remote.head(host, tag)
        },
        forall|i: int|
            0 <= i < diffs@.len() && i != at && (#[trigger] diffs@[i]).host == host ==> local.head(
                host,
                tag,
            ) == remote.head(host, tag) || diffs@[i].tag@ != tag,
        local.head(host, tag) == remote.head(host, tag) ==> forall|i: int|
            0 <= i < diffs@.len() ==> !((#[trigger] diffs@[i]).host == host && diffs@[i].tag@
                == tag),
        forall|i: int, j: int|
            0 <= i < j < diffs@.len() ==> (#[trigger] diffs@[i]).host.0 < (
            #[trigger] diffs@[j]).host.0 || (diffs@[i].host == diffs@[j].host && text_leq(
                diffs@[i].tag@,
                diffs@[j].tag@,
            )),
{
    assert(is_diff_list(diffs@, *local, *remote));
    assert forall|i: int, j: int| 0 <= i < j < diffs@.len() implies (#[trigger] diffs@[i]).host.0 < (
    #[trigger] diffs@[j]).host.0 || (diffs@[i].host == diffs@[j].host && text_leq(
        diffs@[i].tag@,
        diffs@[j].tag@,
    )) by {
        assert(key_leq(diffs@[i].sort_key(), diffs@[j].sort_key()));
    }
    assert forall|i: int| 0 <= i < diffs@.len() && (#[trigger] diffs@[i]).host == host
        && diffs@[i].tag@ == tag implies local.head(host, tag) != remote.head(host, tag) by {
        assert(is_diff_between(diffs@[i], *local, *remote));
    }
    if local.head(host, tag) != remote.head(host, tag) {
        assert(has_diff(diffs@, host, tag));
        let at = choose|i: int|
            0 <= i < diffs@.len() && (#[trigger] diffs@[i]).host == host && diffs@[i].tag@ == tag;
        assert(is_diff_between(diffs@[at], *local, *remote));
        assert forall|i: int|
            0 <= i < diffs@.len() && i != at && (#[trigger] diffs@[i]).host
                == host implies diffs@[i].tag@ != tag by {
            if i < at {
                assert(diffs@[i].sort_key() != diffs@[at].sort_key());
            } else {
                assert(diffs@[at].sort_key() != diffs@[i].sort_key());
            }
        }
        at
    } else {
        0
    }
}

/// Setting the head of a host and tag is read back, and no other host and tag notices.
pub proof fn law_set_is_read_back(
    status: &mut RecordStatus,
    host: HostId,
    tag: String,
    idx: RecordIdx,
    other_host: HostId,
    other_tag: Seq<char>,
)
    requires
        call_ensures(RecordStatus::set, (status, host, tag, idx), ()),
    ensures
        final(status).head(host, tag@) == Some(idx),
        (other_host != host || other_tag != tag@) ==> final(status).head(other_host, other_tag)
            == old(status).head(other_host, other_tag),
{
}

} // verus!
