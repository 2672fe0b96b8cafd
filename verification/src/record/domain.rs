//! The values that sync moves: records, their identities, and what is known of a store's head.

use vstd::prelude::*;

verus! {

/// Position of a record in the store of its host and tag.
pub type RecordIdx = u64;

/// Identity of a record: a UUID, as its 128-bit number.
#[derive(Clone, Copy, Debug, PartialEq, Eq, PartialOrd, Ord, Hash, Structural)]
pub struct RecordId(pub u128);

/// Identity of a host: a UUID, as its 128-bit number.
#[derive(Clone, Copy, Debug, PartialEq, Eq, PartialOrd, Ord, Hash, Structural)]
pub struct HostId(pub u128);

/// The host that a record comes from.
#[derive(Clone, Debug, PartialEq, Eq)]
pub struct Host {
    pub id: HostId,
    pub name: String,
}

impl Host {
    /// A host without a name.
    pub fn new(id: HostId) -> (host: Host)
        ensures
            host.id == id,
            host.name@ == Seq::<char>::empty(),
    {
        Host { id, name: String::new() }
    }
}

/// Plaintext of a record.
#[derive(Clone, Debug, PartialEq, Eq)]
pub struct DecryptedData(pub Vec<u8>);

impl View for DecryptedData {
    type V = Seq<u8>;

    open spec fn view(&self) -> Seq<u8> {
        self.0@
    }
}

/// Ciphertext of a record, with the wrapped key that its content is encrypted under.
#[derive(Clone, Debug, PartialEq, Eq)]
pub struct EncryptedData {
    pub data: String,
    pub content_encryption_key: String,
}

impl View for EncryptedData {
    type V = (Seq<char>, Seq<char>);

    open spec fn view(&self) -> (Seq<char>, Seq<char>) {
        (self.data@, self.content_encryption_key@)
    }
}

/// One entry of a record store.
#[derive(Clone, Debug, PartialEq, Eq)]
pub struct Record<Data> {
    pub id: RecordId,
    pub idx: RecordIdx,
    pub host: Host,
    pub timestamp: u64,
    pub version: String,
    pub tag: String,
    pub data: Data,
}

/// The values of a record.
pub ghost struct RecordView<D> {
    pub id: RecordId,
    pub idx: RecordIdx,
    pub host: HostId,
    pub host_name: Seq<char>,
    pub timestamp: u64,
    pub version: Seq<char>,
    pub tag: Seq<char>,
    pub data: D,
}

impl<Data: View> View for Record<Data> {
    type V = RecordView<Data::V>;

    open spec fn view(&self) -> RecordView<Data::V> {
        RecordView {
            id: self.id,
            idx: self.idx,
            host: self.host.id,
            host_name: self.host.name@,
            timestamp: self.timestamp,
            version: self.version@,
            tag: self.tag@,
            data: self.data@,
        }
    }
}

/// The values of each of the records.
pub open spec fn views<Data: View>(records: Seq<Record<Data>>) -> Seq<RecordView<Data::V>> {
    Seq::new(records.len(), |i: int| records[i]@)
}

/// The ids of the records, in their order.
pub open spec fn ids<Data>(records: Seq<Record<Data>>) -> Seq<RecordId> {
    Seq::new(records.len(), |i: int| records[i].id)
}

/// Reads off the ids of the records, in their order.
pub fn record_ids<Data>(records: &Vec<Record<Data>>) -> (out: Vec<RecordId>)
    ensures
        out@ == ids(records@),
{
    let mut out: Vec<RecordId> = Vec::new();
    let mut i: usize = 0;
    while i < records.len()
        invariant
            i <= records@.len(),
            out@ == ids(records@).take(i as int),
        decreases records@.len() - i,
    {
        out.push(records[i].id);
        i = i + 1;
        assert(out@ =~= ids(records@).take(i as int));
    }
    assert(ids(records@).take(i as int) =~= ids(records@));
    out
}

/// What a ciphertext is bound to besides the key: it opens only under the same values.
#[derive(Clone, Copy, Debug)]
pub struct AdditionalData<'a> {
    pub id: &'a RecordId,
    pub idx: &'a RecordIdx,
    pub version: &'a str,
    pub tag: &'a str,
    pub host: &'a HostId,
}

/// The values of an [`AdditionalData`].
pub ghost struct Binding {
    pub id: RecordId,
    pub idx: RecordIdx,
    pub version: Seq<char>,
    pub tag: Seq<char>,
    pub host: HostId,
}

impl<'a> View for AdditionalData<'a> {
    type V = Binding;

    open spec fn view(&self) -> Binding {
        Binding {
            id: *self.id,
            idx: *self.idx,
            version: self.version@,
            tag: self.tag@,
            host: *self.host,
        }
    }
}

/// How far two stores have got with one host and tag: the index of the last record on either
/// side, or nothing where a side has none.
#[derive(Clone, Debug, PartialEq, Eq, PartialOrd, Ord)]
pub struct Diff {
    pub host: HostId,
    pub tag: String,
    pub local: Option<RecordIdx>,
    pub remote: Option<RecordIdx>,
}

/// A record has the values of its fields, and two records with the same values agree in every field.
pub proof fn law_record_is_its_fields<Data: View>(a: Record<Data>, b: Record<Data>)
    ensures
        a@ == b@ <==> {
            &&& a.id == b.id
            &&& a.idx == b.idx
            &&& a.host.id == b.host.id
            &&& a.host.name@ == b.host.name@
            &&& a.timestamp == b.timestamp
            &&& a.version@ == b.version@
            &&& a.tag@ == b.tag@
            &&& a.data@ == b.data@
        },
        a@.id == a.id && a@.idx == a.idx && a@.timestamp == a.timestamp,
        a@.host == a.host.id && a@.host_name == a.host.name@,
        a@.version == a.version@ && a@.tag == a.tag@ && a@.data == a.data@,
{
}

/// The same holds of a ciphertext and of what it is bound to.
pub proof fn law_ciphertext_is_its_fields(e: EncryptedData, ad: AdditionalData<'_>)
    ensures
        e@.0 == e.data@,
        e@.1 == e.content_encryption_key@,
        ad@.id == *ad.id && ad@.idx == *ad.idx && ad@.host == *ad.host,
        ad@.version == ad.version@ && ad@.tag == ad.tag@,
{
}

/// The ids of records are as many as the records, each that of the record at its place.
pub proof fn law_each_record_has_its_id<Data>(records: &Vec<Record<Data>>, out: Vec<RecordId>)
    requires
        call_ensures(record_ids::<Data>, (records,), out),
    ensures
        out@.len() == records@.len(),
        forall|i: int| 0 <= i < records@.len() ==> #[trigger] out@[i] == records@[i].id,
        out@ == ids(records@),
{
}

/// The values of records are as many as the records, each that of the record at its place.
pub proof fn law_each_record_has_its_values<Data: View>(records: Seq<Record<Data>>)
    ensures
        views(records).len() == records.len(),
        forall|i: int| 0 <= i < records.len() ==> #[trigger] views(records)[i] == records[i]@,
{
}

/// A new host has the id that it was given, and no name.
pub proof fn law_new_host_has_its_id(id: HostId, host: Host)
    requires
        call_ensures(Host::new, (id,), host),
    ensures
        host.id == id,
        host.name@.len() == 0,
{
}

} // verus!
