//! Encrypting the content of records.

use vstd::prelude::*;

use crate::record::domain::{
    AdditionalData, Binding, DecryptedData, EncryptedData, Record, RecordView,
};

verus! {

/// A cipher for the content of records.
///
/// Nothing is promised of an implementation here. What the library says of a result that went
/// through one, it says over [`encrypts_to`] and [`decrypts_to`]; what it takes for a ciphertext to
/// open again is [`is_lawful`].
pub trait Encryption {
    /// Seals `data` under `key`, bound to `ad`.
    fn encrypt(data: DecryptedData, ad: AdditionalData<'_>, key: &[u8; 32]) -> EncryptedData;

    /// Opens what was sealed under `key` and bound to `ad`, or says why it does not open.
    fn decrypt(data: EncryptedData, ad: AdditionalData<'_>, key: &[u8; 32]) -> Result<
        DecryptedData,
        String,
    >;
}

/// The cipher may seal `plain` as `sealed`.
pub open spec fn encrypts_to<E: Encryption>(
    plain: Seq<u8>,
    ad: Binding,
    key: Seq<u8>,
    sealed: (Seq<char>, Seq<char>),
) -> bool {
    exists|d: DecryptedData, a: AdditionalData<'_>, k: &[u8; 32], e: EncryptedData| #[trigger]
        call_ensures(E::encrypt, (d, a, k), e) && d@ == plain && a@ == ad && k@ == key && e@
            == sealed
}

/// The cipher may answer `opened` when it is asked to open `sealed`.
pub open spec fn decrypts_to<E: Encryption>(
    sealed: (Seq<char>, Seq<char>),
    ad: Binding,
    key: Seq<u8>,
    opened: Result<DecryptedData, String>,
) -> bool {
    exists|e: EncryptedData, a: AdditionalData<'_>, k: &[u8; 32]| #[trigger]
        call_ensures(E::decrypt, (e, a, k), opened) && e@ == sealed && a@ == ad && k@ == key
}

/// What the cipher sealed, it opens again, under the same key and bound to the same values.
pub open spec fn is_lawful<E: Encryption>() -> bool {
    forall|
        plain: Seq<u8>,
        ad: Binding,
        key: Seq<u8>,
        sealed: (Seq<char>, Seq<char>),
        opened: Result<DecryptedData, String>,
    |
        #[trigger] encrypts_to::<E>(plain, ad, key, sealed) && #[trigger] decrypts_to::<E>(
            sealed,
            ad,
            key,
            opened,
        ) ==> (opened matches Ok(data) && data@ == plain)
}

/// What the cipher sealed, it opens under no other key and for no other values.
pub open spec fn is_authentic<E: Encryption>() -> bool {
    forall|
        plain: Seq<u8>,
        ad: Binding,
        key: Seq<u8>,
        sealed: (Seq<char>, Seq<char>),
        other_ad: Binding,
        other_key: Seq<u8>,
        opened: Result<DecryptedData, String>,
    |
        #[trigger] encrypts_to::<E>(plain, ad, key, sealed) && #[trigger] decrypts_to::<E>(
            sealed,
            other_ad,
            other_key,
            opened,
        ) && (ad != other_ad || key != other_key) ==> opened is Err
}

/// What a record's own ciphertext is bound to: its identity, version and tag.
pub open spec fn record_binding<D>(record: RecordView<D>) -> Binding {
    Binding {
        id: record.id,
        idx: record.idx,
        version: record.version,
        tag: record.tag,
        host: record.host,
    }
}

/// The record `after` is `before` but for its data.
pub open spec fn only_data_differs<A, B>(before: RecordView<A>, after: RecordView<B>) -> bool {
    &&& after.id == before.id
    &&& after.idx == before.idx
    &&& after.host == before.host
    &&& after.host_name == before.host_name
    &&& after.timestamp == before.timestamp
    &&& after.version == before.version
    &&& after.tag == before.tag
}

/// `after` is the record `before` with its data sealed.
pub open spec fn is_encryption_of<E: Encryption>(
    after: RecordView<(Seq<char>, Seq<char>)>,
    before: RecordView<Seq<u8>>,
    key: Seq<u8>,
) -> bool {
    &&& only_data_differs(before, after)
    &&& encrypts_to::<E>(before.data, record_binding(before), key, after.data)
}

/// What comes of opening a record's data: the record with the plaintext, or the cipher's refusal.
pub open spec fn is_decryption_of<E: Encryption>(
    after: Result<RecordView<Seq<u8>>, Seq<char>>,
    before: RecordView<(Seq<char>, Seq<char>)>,
    key: Seq<u8>,
) -> bool {
    exists|opened: Result<DecryptedData, String>| #[trigger]
        decrypts_to::<E>(before.data, record_binding(before), key, opened) && match (
            opened,
            after,
        ) {
            (Ok(data), Ok(record)) => only_data_differs(before, record) && record.data == data@,
            (Err(e), Err(msg)) => msg == e@,
            _ => false,
        }
}

impl Record<DecryptedData> {
    /// Seals the record's data, bound to its identity, version and tag.
    pub fn encrypt<E: Encryption>(self, key: &[u8; 32]) -> (record: Record<EncryptedData>)
        ensures
            is_encryption_of::<E>(record@, self@, key@),
            record.id == self.id,
    {
        let Record { id, idx, host, timestamp, version, tag, data } = self;
        let ad = AdditionalData {
            id: &id,
            idx: &idx,
            version: version.as_str(),
            tag: tag.as_str(),
            host: &host.id,
        };
        let sealed = E::encrypt(data, ad, key);
        assert(call_ensures(E::encrypt, (data, ad, key), sealed));
        Record { id, idx, host, timestamp, version, tag, data: sealed }
    }
}

impl Record<EncryptedData> {
    /// Opens the record's data.
    pub fn decrypt<E: Encryption>(self, key: &[u8; 32]) -> (res: Result<
        Record<DecryptedData>,
        String,
    >)
        ensures
            is_decryption_of::<E>(
                match res {
                    Ok(record) => Ok(record@),
                    Err(msg) => Err(msg@),
                },
                self@,
                key@,
            ),
    {
        let Record { id, idx, host, timestamp, version, tag, data } = self;
        let ad = AdditionalData {
            id: &id,
            idx: &idx,
            version: version.as_str(),
            tag: tag.as_str(),
            host: &host.id,
        };
        let opened = E::decrypt(data, ad, key);
        assert(call_ensures(E::decrypt, (data, ad, key), opened));
        assert(decrypts_to::<E>(self@.data, record_binding(self@), key@, opened));
        match opened {
            Ok(data) => Ok(Record { id, idx, host, timestamp, version, tag, data }),
            Err(msg) => Err(msg),
        }
    }
}

/// With a lawful cipher, a record that was sealed opens to the record that it was.
pub proof fn law_decrypt_reverses_encrypt<E: Encryption>(
    record: RecordView<Seq<u8>>,
    sealed: RecordView<(Seq<char>, Seq<char>)>,
    opened: Result<RecordView<Seq<u8>>, Seq<char>>,
    key: Seq<u8>,
)
    requires
        is_lawful::<E>(),
        is_encryption_of::<E>(sealed, record, key),
        is_decryption_of::<E>(opened, sealed, key),
    ensures
        opened == Ok::<RecordView<Seq<u8>>, Seq<char>>(record),
{
}

/// Encrypting a record hands the cipher its data and nothing else, bound to its id, index, version, tag
/// and host, and changes nothing else of it. What was handed over is returned.
pub proof fn law_encrypt_changes_only_the_data<E: Encryption>(
    record: Record<DecryptedData>,
    key: &[u8; 32],
    sealed: Record<EncryptedData>,
) -> (call: (DecryptedData, AdditionalData<'static>, &'static [u8; 32], EncryptedData))
    requires
        call_ensures(Record::<DecryptedData>::encrypt::<E>, (record, key), sealed),
    ensures
        call_ensures(E::encrypt, (call.0, call.1, call.2), call.3),
        call.0.0@ == record.data.0@,
        *call.1.id == record.id,
        *call.1.idx == record.idx,
        call.1.version@ == record.version@,
        call.1.tag@ == record.tag@,
        *call.1.host == record.host.id,
        call.2@ == key@,
        sealed.data.data@ == call.3.data@,
        sealed.data.content_encryption_key@ == call.3.content_encryption_key@,
        sealed.id == record.id,
        sealed.idx == record.idx,
        sealed.host.id == record.host.id,
        sealed.host.name@ == record.host.name@,
        sealed.timestamp == record.timestamp,
        sealed.version@ == record.version@,
        sealed.tag@ == record.tag@,
{
    let (before, after) = (record@, sealed@);
    assert(is_encryption_of::<E>(after, before, key@));
    choose|d: DecryptedData, a: AdditionalData<'static>, k: &'static [u8; 32], e: EncryptedData|
        #[trigger] call_ensures(E::encrypt, (d, a, k), e) && d@ == before.data && a@
            == record_binding(before) && k@ == key@ && e@ == after.data
}

/// Decrypting a record hands the cipher its ciphertext, bound to its id, index, version, tag and host.
/// Where that opens, the record is the same but for its data, which is what the cipher gave; where it
/// does not, the failure is the cipher's. What was handed over is returned.
pub proof fn law_decrypt_answers_as_the_cipher<E: Encryption>(
    record: Record<EncryptedData>,
    key: &[u8; 32],
    res: Result<Record<DecryptedData>, String>,
) -> (call: (
    EncryptedData,
    AdditionalData<'static>,
    &'static [u8; 32],
    Result<DecryptedData, String>,
))
    requires
        call_ensures(Record::<EncryptedData>::decrypt::<E>, (record, key), res),
    ensures
        call_ensures(E::decrypt, (call.0, call.1, call.2), call.3),
        call.0.data@ == record.data.data@,
        call.0.content_encryption_key@ == record.data.content_encryption_key@,
        *call.1.id == record.id,
        *call.1.idx == record.idx,
        call.1.version@ == record.version@,
        call.1.tag@ == record.tag@,
        *call.1.host == record.host.id,
        call.2@ == key@,
        match call.3 {
            Ok(plain) => res matches Ok(opened) && {
                &&& opened.data.0@ == plain.0@
                &&& opened.id == record.id
                &&& opened.idx == record.idx
                &&& opened.host.id == record.host.id
                &&& opened.host.name@ == record.host.name@
                &&& opened.timestamp == record.timestamp
                &&& opened.version@ == record.version@
                &&& opened.tag@ == record.tag@
            },
            Err(text) => res matches Err(msg) && msg@ == text@,
        },
{
    let before = record@;
    let after: Result<RecordView<Seq<u8>>, Seq<char>> = match res {
        Ok(opened) => Ok(opened@),
        Err(msg) => Err(msg@),
    };
    assert(is_decryption_of::<E>(after, before, key@));
    let opened = choose|opened: Result<DecryptedData, String>| #[trigger]
        decrypts_to::<E>(before.data, record_binding(before), key@, opened) && match (
            opened,
            after,
        ) {
            (Ok(data), Ok(record)) => only_data_differs(before, record) && record.data == data@,
            (Err(e), Err(msg)) => msg == e@,
            _ => false,
        };
    let (e, a, k) = choose|e: EncryptedData, a: AdditionalData<'static>, k: &'static [u8; 32]|
        #[trigger] call_ensures(E::decrypt, (e, a, k), opened) && e@ == before.data && a@
            == record_binding(before) && k@ == key@;
    (e, a, k, opened)
}

} // verus!
