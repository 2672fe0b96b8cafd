//! Codec for record packfiles: a list of records as MessagePack, compressed with zstd, encrypted, and
//! the envelope as MessagePack again.

use vstd::prelude::*;
use vstd::std_specs::convert::FromSpecImpl;

use crate::packfile::record::{PACKFILE_TAG, PACKFILE_VERSION};
use crate::packfile::wire::{
    compress, compresses_to, decode_envelope, decode_records, decompress, decompresses_to,
    encode_envelope, encode_records, envelope_fits, lemma_compressed, lemma_decompressed,
    msgpack_envelope, msgpack_read_envelope, msgpack_read_records, msgpack_records, record_fits,
    records_fit, text_fits, zstd_content, zstd_frame, MAX_LEN, OUT_OF_MEMORY,
};
use crate::record::domain::{
    views, AdditionalData, Binding, DecryptedData, EncryptedData, Host, HostId, Record, RecordId,
    RecordIdx, RecordView,
};
use crate::record::encryption::{
    decrypts_to, encrypts_to, is_authentic, is_encryption_of, is_lawful, record_binding,
    Encryption,
};

verus! {

/// Version bound into a packfile body's encryption, distinct from the manifest record's own version
/// so that neither ciphertext passes for the other.
pub const PACKFILE_BODY_VERSION: &'static str = "packfile-body-v1";

/// How hard a packfile is compressed.
pub const COMPRESSION_LEVEL: i32 = 3;

/// Identity that a packfile's encryption is bound to: its manifest record.
#[derive(Clone, Copy, Debug, PartialEq, Eq, Structural)]
pub struct PackManifestRef {
    pub id: RecordId,
    pub idx: RecordIdx,
    pub host: HostId,
}

/// The identity of a manifest record.
pub open spec fn manifest_ref_of<T>(record: Record<T>) -> PackManifestRef {
    PackManifestRef { id: record.id, idx: record.idx, host: record.host.id }
}

/// What the body of a packfile is bound to.
pub open spec fn body_binding(manifest_ref: PackManifestRef) -> Binding {
    Binding {
        id: manifest_ref.id,
        idx: manifest_ref.idx,
        version: PACKFILE_BODY_VERSION@,
        tag: PACKFILE_TAG@,
        host: manifest_ref.host,
    }
}

impl<'a> From<&'a PackManifestRef> for AdditionalData<'a> {
    fn from(manifest_ref: &'a PackManifestRef) -> (ad: Self)
        ensures
            ad@ == body_binding(*manifest_ref),
    {
        AdditionalData {
            id: &manifest_ref.id,
            idx: &manifest_ref.idx,
            version: PACKFILE_BODY_VERSION,
            tag: PACKFILE_TAG,
            host: &manifest_ref.host,
        }
    }
}

impl<'a> FromSpecImpl<&'a PackManifestRef> for AdditionalData<'a> {
    open spec fn obeys_from_spec() -> bool {
        true
    }

    open spec fn from_spec(manifest_ref: &'a PackManifestRef) -> Self {
        AdditionalData {
            id: &manifest_ref.id,
            idx: &manifest_ref.idx,
            version: PACKFILE_BODY_VERSION,
            tag: PACKFILE_TAG,
            host: &manifest_ref.host,
        }
    }
}

/// A packfile is anchored to the manifest record that describes it: the record's identity, whatever
/// its data.
impl<T> From<&Record<T>> for PackManifestRef {
    fn from(record: &Record<T>) -> (manifest_ref: Self) {
        PackManifestRef { id: record.id, idx: record.idx, host: record.host.id }
    }
}

impl<T> FromSpecImpl<&Record<T>> for PackManifestRef {
    open spec fn obeys_from_spec() -> bool {
        true
    }

    open spec fn from_spec(record: &Record<T>) -> Self {
        PackManifestRef { id: record.id, idx: record.idx, host: record.host.id }
    }
}

/// A record as it appears inside a packfile.
#[derive(Clone, Debug, PartialEq, Eq)]
pub struct PackedRecord {
    pub id: RecordId,
    pub idx: RecordIdx,
    pub host: Host,
    pub timestamp: u64,
    pub version: String,
    pub tag: String,
    pub data: Vec<u8>,
}

impl View for PackedRecord {
    type V = RecordView<Seq<u8>>;

    open spec fn view(&self) -> RecordView<Seq<u8>> {
        RecordView {
            id: self.id,
            idx: self.idx,
            host: self.host.id,
            host_name: self.host.name@,
            timestamp: self.timestamp,
            version: self.version@,
            tag: self.tag@,
            data: self.data@,
        }
    }
}

/// The values of each of the records.
pub open spec fn packed_views(records: Seq<PackedRecord>) -> Seq<RecordView<Seq<u8>>> {
    Seq::new(records.len(), |i: int| records[i]@)
}

impl From<&Record<DecryptedData>> for PackedRecord {
    fn from(r: &Record<DecryptedData>) -> (packed: Self)
        ensures
            packed@ == r@,
    {
        let packed = PackedRecord {
            id: r.id,
            idx: r.idx,
            host: Host { id: r.host.id, name: r.host.name.clone() },
            timestamp: r.timestamp,
            version: r.version.clone(),
            tag: r.tag.clone(),
            data: r.data.0.clone(),
        };
        assert(packed.data@ =~= r.data@);
        packed
    }
}

impl FromSpecImpl<&Record<DecryptedData>> for PackedRecord {
    open spec fn obeys_from_spec() -> bool {
        false
    }

    open spec fn from_spec(r: &Record<DecryptedData>) -> Self {
        PackedRecord {
            id: r.id,
            idx: r.idx,
            host: r.host,
            timestamp: r.timestamp,
            version: r.version,
            tag: r.tag,
            data: r.data.0,
        }
    }
}

impl From<PackedRecord> for Record<DecryptedData> {
    fn from(p: PackedRecord) -> (record: Self)
        ensures
            record@ == p@,
    {
        Record {
            id: p.id,
            idx: p.idx,
            host: p.host,
            timestamp: p.timestamp,
            version: p.version,
            tag: p.tag,
            data: DecryptedData(p.data),
        }
    }
}

impl FromSpecImpl<PackedRecord> for Record<DecryptedData> {
    open spec fn obeys_from_spec() -> bool {
        true
    }

    open spec fn from_spec(p: PackedRecord) -> Self {
        Record {
            id: p.id,
            idx: p.idx,
            host: p.host,
            timestamp: p.timestamp,
            version: p.version,
            tag: p.tag,
            data: DecryptedData(p.data),
        }
    }
}

/// Why a packfile could not be made or read.
#[derive(Clone, Debug, PartialEq, Eq)]
pub enum CodecError {
    /// A length does not fit the format.
    TooLarge,
    /// The compressor failed.
    Compress(String),
    /// The bytes do not decode.
    Decode(String),
    /// The envelope does not open.
    Decrypt(String),
    /// The content does not decompress.
    Decompress(String),
}

impl CodecError {
    /// The message, as a value.
    pub open spec fn text(self) -> Seq<char> {
        match self {
            CodecError::TooLarge => "too large for a packfile"@,
            CodecError::Compress(msg) => msg@,
            CodecError::Decode(msg) => msg@,
            CodecError::Decrypt(msg) => msg@,
            CodecError::Decompress(msg) => msg@,
        }
    }

    /// The message that says what went wrong.
    pub fn message(&self) -> (text: String)
        ensures
            text@ == self.text(),
    {
        match self {
            CodecError::TooLarge => "too large for a packfile".to_owned(),
            CodecError::Compress(msg) => msg.clone(),
            CodecError::Decode(msg) => msg.clone(),
            CodecError::Decrypt(msg) => msg.clone(),
            CodecError::Decompress(msg) => msg.clone(),
        }
    }
}

/// The failure is one of the compressor for want of memory.
pub open spec fn is_out_of_memory(e: CodecError) -> bool {
    match e {
        CodecError::Compress(msg) => msg@ == OUT_OF_MEMORY@,
        CodecError::Decompress(msg) => msg@ == OUT_OF_MEMORY@,
        _ => false,
    }
}

fn fits_text(text: &str) -> (r: bool)
    ensures
        r == text_fits(text@),
{
    text.as_bytes().len() <= MAX_LEN as usize
}

/// The records in the form in which a packfile holds them, if they fit it.
pub fn packed_records(records: &[Record<DecryptedData>]) -> (res: Option<Vec<PackedRecord>>)
    ensures
        match res {
            Some(packed) => records_fit(views(records@)) && packed_views(packed@) == views(
                records@,
            ),
            None => !records_fit(views(records@)),
        },
{
    if records.len() > MAX_LEN as usize {
        return None;
    }
    let mut packed: Vec<PackedRecord> = Vec::new();
    let mut i: usize = 0;
    while i < records.len()
        invariant
            i <= records@.len(),
            packed@.len() == i,
            packed_views(packed@) == views(records@).take(i as int),
            forall|j: int| 0 <= j < i ==> record_fits(#[trigger] views(records@)[j]),
        decreases records@.len() - i,
    {
        let record = &records[i];
        if !(fits_text(record.host.name.as_str()) && fits_text(record.version.as_str())
            && fits_text(record.tag.as_str()) && record.data.0.len() <= MAX_LEN as usize) {
            assert(!record_fits(views(records@)[i as int]));
            return None;
        }
        assert(record_fits(views(records@)[i as int]));
        let ghost before = packed@;
        packed.push(PackedRecord::from(record));
        i = i + 1;
        proof {
            assert forall|j: int| 0 <= j < i implies #[trigger] packed_views(packed@)[j] == views(
                records@,
            )[j] by {
                if j < i - 1 {
                    assert(packed_views(before)[j] == views(records@).take(i - 1)[j]);
                }
            }
            assert(packed_views(packed@) =~= views(records@).take(i as int));
        }
    }
    assert(views(records@).take(i as int) =~= views(records@));
    Some(packed)
}

/// The records that a packfile holds, taken out of its form.
pub fn unpacked_records(packed: Vec<PackedRecord>) -> (records: Vec<Record<DecryptedData>>)
    ensures
        views(records@) == packed_views(packed@),
{
    let ghost all = packed@;
    let mut records: Vec<Record<DecryptedData>> = Vec::new();
    for p in iter: packed
        invariant
            all == packed@,
            iter.seq() == all,
            records@.len() == iter.index(),
            views(records@) == packed_views(all).take(iter.index() as int),
    {
        let ghost before = records@;
        let record = Record::from(p);
        records.push(record);
        proof {
            let n = iter.index() + 1;
            assert forall|j: int| 0 <= j < n implies #[trigger] views(records@)[j] == packed_views(
                all,
            )[j] by {
                if j < n - 1 {
                    assert(views(before)[j] == packed_views(all).take(n - 1)[j]);
                }
            }
            assert(views(records@) =~= packed_views(all).take(n));
        }
    }
    assert(packed_views(all).take(all.len() as int) =~= packed_views(all));
    records
}

/// The envelope of a packfile as bytes.
///
/// Fails, with `TooLarge`, exactly where a string of the envelope does not fit the format.
pub fn write_envelope(envelope: &EncryptedData) -> (res: Result<Vec<u8>, CodecError>)
    ensures
        match res {
            Ok(bytes) => envelope_fits(envelope@) && is_envelope(bytes@, envelope@),
            Err(e) => e == CodecError::TooLarge && !envelope_fits(envelope@),
        },
{
    if !(fits_text(envelope.data.as_str()) && fits_text(
        envelope.content_encryption_key.as_str(),
    )) {
        return Err(CodecError::TooLarge);
    }
    Ok(encode_envelope(envelope))
}

/// `bytes` is the encoding of the envelope, and reads back as it.
pub open spec fn is_envelope(bytes: Seq<u8>, envelope: (Seq<char>, Seq<char>)) -> bool {
    &&& bytes == msgpack_envelope(envelope)
    &&& msgpack_read_envelope(bytes) == Ok::<(Seq<char>, Seq<char>), Seq<char>>(envelope)
}

/// `body` is the compressed encoding of the records, and reads back as them.
pub open spec fn is_body(body: Seq<u8>, records: Seq<RecordView<Seq<u8>>>) -> bool {
    &&& body == zstd_frame(msgpack_records(records), COMPRESSION_LEVEL as int)
    &&& zstd_content(body) == Ok::<Seq<u8>, Seq<char>>(msgpack_records(records))
    &&& msgpack_read_records(msgpack_records(records)) == Ok::<
        Seq<RecordView<Seq<u8>>>,
        Seq<char>,
    >(records)
}

/// The envelope that the records may be sealed in.
pub open spec fn seals<E: Encryption>(
    envelope: (Seq<char>, Seq<char>),
    records: Seq<RecordView<Seq<u8>>>,
    ad: Binding,
    key: Seq<u8>,
) -> bool {
    exists|body: Seq<u8>| #[trigger]
        is_body(body, records) && encrypts_to::<E>(body, ad, key, envelope)
}

/// `bytes` is a packfile of the records.
pub open spec fn is_packed<E: Encryption>(
    bytes: Seq<u8>,
    records: Seq<RecordView<Seq<u8>>>,
    ad: Binding,
    key: Seq<u8>,
) -> bool {
    exists|envelope: (Seq<char>, Seq<char>)| #[trigger]
        seals::<E>(envelope, records, ad, key) && is_envelope(bytes, envelope)
}

/// What comes of packing the records: a packfile of them; `TooLarge` exactly where a length in them,
/// or in the envelope that they are sealed in, does not fit the format; or the failure, for want of
/// memory, that the compressor answered with when it was asked to compress exactly these records.
pub open spec fn packs_to<E: Encryption>(
    records: Seq<RecordView<Seq<u8>>>,
    ad: Binding,
    key: Seq<u8>,
    res: Result<Seq<u8>, CodecError>,
) -> bool {
    &&& records_fit(records) ==> exists|compressed: Result<Vec<u8>, String>| #[trigger]
        compresses_to(msgpack_records(records), COMPRESSION_LEVEL, compressed)
            && compressed_seals_as::<E>(compressed, ad, key, res)
    &&& match res {
        Ok(bytes) => records_fit(records) && is_packed::<E>(bytes, records, ad, key),
        Err(CodecError::TooLarge) => records_fit(records) ==> exists|
            envelope: (Seq<char>, Seq<char>),
        | #[trigger] seals::<E>(envelope, records, ad, key) && !envelope_fits(envelope),
        Err(CodecError::Compress(msg)) => {
            &&& records_fit(records)
            &&& compresses_to(msgpack_records(records), COMPRESSION_LEVEL, Err(msg))
            &&& msg@ == OUT_OF_MEMORY@
        },
        Err(_) => false,
    }
}

/// The bytes of a result, as values.
pub open spec fn bytes_result(res: Result<Vec<u8>, CodecError>) -> Result<Seq<u8>, CodecError> {
    match res {
        Ok(bytes) => Ok(bytes@),
        Err(e) => Err(e),
    }
}

/// What comes of what the compressor answered: its failure, or the frame sealed, and the envelope
/// written where it fits the format.
pub open spec fn compressed_seals_as<E: Encryption>(
    compressed: Result<Vec<u8>, String>,
    ad: Binding,
    key: Seq<u8>,
    res: Result<Seq<u8>, CodecError>,
) -> bool {
    match compressed {
        Err(msg) => res == Err::<Seq<u8>, CodecError>(CodecError::Compress(msg)),
        Ok(body) => exists|envelope: (Seq<char>, Seq<char>)| #[trigger]
            encrypts_to::<E>(body@, ad, key, envelope) && match res {
                Ok(bytes) => envelope_fits(envelope) && is_envelope(bytes, envelope),
                Err(e) => e == CodecError::TooLarge && !envelope_fits(envelope),
            },
    }
}

/// Seals what the compressor answered into the body of a packfile.
pub fn seal_compressed<E: Encryption>(
    compressed: Result<Vec<u8>, String>,
    manifest_ref: &PackManifestRef,
    key: &[u8; 32],
) -> (res: Result<Vec<u8>, CodecError>)
    ensures
        compressed_seals_as::<E>(
            compressed,
            body_binding(*manifest_ref),
            key@,
            bytes_result(res),
        ),
{
    let plain = match compressed {
        Ok(body) => DecryptedData(body),
        Err(msg) => return Err(CodecError::Compress(msg)),
    };
    let ad = AdditionalData::from(manifest_ref);
    let envelope = E::encrypt(plain, ad, key);
    assert(call_ensures(E::encrypt, (plain, ad, key), envelope));
    assert(encrypts_to::<E>(plain@, body_binding(*manifest_ref), key@, envelope@));
    write_envelope(&envelope)
}

/// Compresses and encrypts `records` into the body of a packfile, bound to its manifest.
pub fn pack<E: Encryption>(
    records: &[Record<DecryptedData>],
    manifest_ref: &PackManifestRef,
    key: &[u8; 32],
) -> (res: Result<Vec<u8>, CodecError>)
    ensures
        packs_to::<E>(views(records@), body_binding(*manifest_ref), key@, bytes_result(res)),
{
    let packed = match packed_records(records) {
        Some(packed) => packed,
        None => return Err(CodecError::TooLarge),
    };
    let encoded = encode_records(&packed);
    let bytes = encoded.as_slice();
    let compressed = compress(bytes, COMPRESSION_LEVEL);
    proof {
        lemma_compressed(bytes, COMPRESSION_LEVEL, compressed);
    }
    assert(compressed matches Ok(body) ==> is_body(body@, views(records@)));
    let res = seal_compressed::<E>(compressed, manifest_ref, key);
    proof {
        if compressed is Ok {
            let (body, ad) = (compressed->Ok_0, body_binding(*manifest_ref));
            let envelope = choose|envelope: (Seq<char>, Seq<char>)| #[trigger]
                encrypts_to::<E>(body@, ad, key@, envelope) && match bytes_result(res) {
                    Ok(bytes) => envelope_fits(envelope) && is_envelope(bytes, envelope),
                    Err(e) => e == CodecError::TooLarge && !envelope_fits(envelope),
                };
            assert(seals::<E>(envelope, views(records@), ad, key@));
        }
    }
    res
}

/// What comes of the content of an opened envelope: the records, or why there are none.
pub open spec fn content_reads_as(
    content: Seq<u8>,
    res: Result<Seq<RecordView<Seq<u8>>>, CodecError>,
) -> bool {
    match (msgpack_read_records(content), res) {
        (Ok(records), Ok(out)) => out == records,
        (Err(text), Err(CodecError::Decode(msg))) => msg@ == text,
        _ => false,
    }
}

/// What comes of what the cipher answered: its refusal, a refusal to decompress, or what the content
/// reads as.
pub open spec fn opened_reads_as(
    opened: Result<DecryptedData, String>,
    res: Result<Seq<RecordView<Seq<u8>>>, CodecError>,
) -> bool {
    match (opened, res) {
        (Err(text), Err(CodecError::Decrypt(msg))) => msg@ == text@,
        (Err(_), _) => false,
        (Ok(body), Err(CodecError::Decompress(msg))) => {
            &&& decompresses_to(body@, Err(msg))
            &&& zstd_content(body@) == Err::<Seq<u8>, Seq<char>>(msg@) || msg@ == OUT_OF_MEMORY@
        },
        (Ok(body), _) => zstd_content(body@) is Ok && content_reads_as(
            zstd_content(body@)->Ok_0,
            res,
        ),
    }
}

/// What comes of unpacking: the bytes decode as an envelope, the cipher opens it, and its content
/// decompresses and decodes as records; the first of these that fails says why.
pub open spec fn unpacks_to<E: Encryption>(
    bytes: Seq<u8>,
    ad: Binding,
    key: Seq<u8>,
    res: Result<Seq<RecordView<Seq<u8>>>, CodecError>,
) -> bool {
    match msgpack_read_envelope(bytes) {
        Err(text) => res matches Err(CodecError::Decode(msg)) && msg@ == text,
        Ok(envelope) => exists|opened: Result<DecryptedData, String>| #[trigger]
            decrypts_to::<E>(envelope, ad, key, opened) && opened_reads_as(opened, res),
    }
}

/// The records of a result, as values.
pub open spec fn records_result(res: Result<Vec<Record<DecryptedData>>, CodecError>) -> Result<
    Seq<RecordView<Seq<u8>>>,
    CodecError,
> {
    match res {
        Ok(records) => Ok(views(records@)),
        Err(e) => Err(e),
    }
}

/// Reads the records out of what the decompressor answered.
pub fn read_content(content: Result<Vec<u8>, String>) -> (res: Result<
    Vec<Record<DecryptedData>>,
    CodecError,
>)
    ensures
        match content {
            Ok(bytes) => content_reads_as(bytes@, records_result(res)),
            Err(msg) => res == Err::<Vec<Record<DecryptedData>>, CodecError>(
                CodecError::Decompress(msg),
            ),
        },
{
    let bytes = match content {
        Ok(bytes) => bytes,
        Err(msg) => return Err(CodecError::Decompress(msg)),
    };
    match decode_records(bytes.as_slice()) {
        Ok(packed) => Ok(unpacked_records(packed)),
        Err(msg) => Err(CodecError::Decode(msg)),
    }
}

/// Reads the records out of what the cipher answered.
pub fn read_opened(opened: Result<DecryptedData, String>) -> (res: Result<
    Vec<Record<DecryptedData>>,
    CodecError,
>)
    ensures
        opened_reads_as(opened, records_result(res)),
{
    let body = match opened {
        Ok(body) => body,
        Err(msg) => return Err(CodecError::Decrypt(msg)),
    };
    let bytes = body.0.as_slice();
    let content = decompress(bytes);
    proof {
        lemma_decompressed(bytes, content);
    }
    read_content(content)
}

/// Reverse of [`pack`].
pub fn unpack<E: Encryption>(
    bytes: &[u8],
    manifest_ref: &PackManifestRef,
    key: &[u8; 32],
) -> (res: Result<Vec<Record<DecryptedData>>, CodecError>)
    ensures
        unpacks_to::<E>(bytes@, body_binding(*manifest_ref), key@, records_result(res)),
{
    let envelope = match decode_envelope(bytes) {
        Ok(envelope) => envelope,
        Err(msg) => return Err(CodecError::Decode(msg)),
    };
    let ad = AdditionalData::from(manifest_ref);
    let opened = E::decrypt(envelope, ad, key);
    assert(call_ensures(E::decrypt, (envelope, ad, key), opened));
    assert(decrypts_to::<E>(
        msgpack_read_envelope(bytes@)->Ok_0,
        body_binding(*manifest_ref),
        key@,
        opened,
    ));
    read_opened(opened)
}

/// With a lawful cipher, unpacking a packfile under the manifest and key that it was packed for gives
/// back the records that went into it, all of them and in their order. Left out is only an answer
/// that the decompressor ran out of memory.
pub proof fn law_unpack_reverses_pack<E: Encryption>(
    bytes: Seq<u8>,
    records: Seq<RecordView<Seq<u8>>>,
    manifest_ref: PackManifestRef,
    key: Seq<u8>,
    res: Result<Seq<RecordView<Seq<u8>>>, CodecError>,
)
    requires
        is_lawful::<E>(),
        packs_to::<E>(
            records,
            body_binding(manifest_ref),
            key,
            Ok::<Seq<u8>, CodecError>(bytes),
        ),
        unpacks_to::<E>(bytes, body_binding(manifest_ref), key, res),
        !(res is Err && is_out_of_memory(res->Err_0)),
    ensures
        res == Ok::<Seq<RecordView<Seq<u8>>>, CodecError>(records),
{
    let ad = body_binding(manifest_ref);
    let envelope = choose|envelope: (Seq<char>, Seq<char>)| #[trigger]
        seals::<E>(envelope, records, ad, key) && is_envelope(bytes, envelope);
    let body = choose|body: Seq<u8>| #[trigger]
        is_body(body, records) && encrypts_to::<E>(body, ad, key, envelope);
    let opened = choose|opened: Result<DecryptedData, String>| #[trigger]
        decrypts_to::<E>(msgpack_read_envelope(bytes)->Ok_0, ad, key, opened) && opened_reads_as(
            opened,
            res,
        );
    assert(msgpack_read_envelope(bytes)->Ok_0 == envelope);
    assert(encrypts_to::<E>(body, ad, key, envelope));
    assert(decrypts_to::<E>(envelope, ad, key, opened));
    assert(opened->Ok_0@ == body);
}

/// Packing succeeds wherever the lengths fit the format: those of the records, and those of the
/// envelope that the cipher made. Left out is only an answer that the compressor ran out of memory.
pub proof fn law_pack_succeeds<E: Encryption>(
    records: Seq<RecordView<Seq<u8>>>,
    manifest_ref: PackManifestRef,
    key: Seq<u8>,
    res: Result<Seq<u8>, CodecError>,
)
    requires
        packs_to::<E>(records, body_binding(manifest_ref), key, res),
        records_fit(records),
        forall|envelope: (Seq<char>, Seq<char>)| #[trigger]
            seals::<E>(envelope, records, body_binding(manifest_ref), key) ==> envelope_fits(
                envelope,
            ),
        !(res is Err && is_out_of_memory(res->Err_0)),
    ensures
        res is Ok,
        is_packed::<E>(res->Ok_0, records, body_binding(manifest_ref), key),
{
}

/// What the frame in the body of a packfile holds reads as the records that were packed: where the
/// decompressor answers at all, nothing more can fail.
pub proof fn law_content_reads_back(
    body: Seq<u8>,
    records: Seq<RecordView<Seq<u8>>>,
    res: Result<Seq<RecordView<Seq<u8>>>, CodecError>,
)
    requires
        is_body(body, records),
        content_reads_as(zstd_content(body)->Ok_0, res),
    ensures
        res == Ok::<Seq<RecordView<Seq<u8>>>, CodecError>(records),
{
}

/// Packfiles of different manifests are bound to different values.
pub proof fn law_binding_names_the_manifest(a: PackManifestRef, b: PackManifestRef)
    requires
        body_binding(a) == body_binding(b),
    ensures
        a == b,
{
}

/// The body of a packfile is never bound to the values that a manifest record is bound to, not even
/// to those of its own manifest.
pub proof fn law_manifest_is_no_body<D>(manifest: RecordView<D>, manifest_ref: PackManifestRef)
    requires
        manifest.version == PACKFILE_VERSION@,
    ensures
        record_binding(manifest) != body_binding(manifest_ref),
{
    reveal_strlit("packfile-v1");
    reveal_strlit("packfile-body-v1");
    assert(PACKFILE_VERSION@.len() != PACKFILE_BODY_VERSION@.len());
}

/// With a cipher that opens nothing that was sealed under another key or bound to other values,
/// unpacking fails for whatever was not sealed as the body of this manifest's packfile under this
/// key: a packfile of another manifest, one made with another key, or a manifest's own ciphertext.
pub proof fn law_unpack_refuses_what_is_not_its_own<E: Encryption>(
    bytes: Seq<u8>,
    envelope: (Seq<char>, Seq<char>),
    plain: Seq<u8>,
    sealed_ad: Binding,
    sealed_key: Seq<u8>,
    manifest_ref: PackManifestRef,
    key: Seq<u8>,
    res: Result<Seq<RecordView<Seq<u8>>>, CodecError>,
)
    requires
        is_authentic::<E>(),
        encrypts_to::<E>(plain, sealed_ad, sealed_key, envelope),
        is_envelope(bytes, envelope),
        sealed_ad != body_binding(manifest_ref) || sealed_key != key,
        unpacks_to::<E>(bytes, body_binding(manifest_ref), key, res),
    ensures
        res is Err && res->Err_0 is Decrypt,
{
    let ad = body_binding(manifest_ref);
    let opened = choose|opened: Result<DecryptedData, String>| #[trigger]
        decrypts_to::<E>(msgpack_read_envelope(bytes)->Ok_0, ad, key, opened) && opened_reads_as(
            opened,
            res,
        );
    assert(msgpack_read_envelope(bytes)->Ok_0 == envelope);
    assert(decrypts_to::<E>(envelope, ad, key, opened));
}

/// With such a cipher, a manifest record's own ciphertext does not unpack as the body of a packfile,
/// not even as that of the manifest's own.
pub proof fn law_manifest_does_not_unpack<E: Encryption>(
    bytes: Seq<u8>,
    manifest: RecordView<Seq<u8>>,
    sealed: RecordView<(Seq<char>, Seq<char>)>,
    manifest_ref: PackManifestRef,
    key: Seq<u8>,
    res: Result<Seq<RecordView<Seq<u8>>>, CodecError>,
)
    requires
        is_authentic::<E>(),
        manifest.version == PACKFILE_VERSION@,
        is_encryption_of::<E>(sealed, manifest, key),
        is_envelope(bytes, sealed.data),
        unpacks_to::<E>(bytes, body_binding(manifest_ref), key, res),
    ensures
        res is Err && res->Err_0 is Decrypt,
{
    law_manifest_is_no_body(manifest, manifest_ref);
    law_unpack_refuses_what_is_not_its_own::<E>(
        bytes,
        sealed.data,
        manifest.data,
        record_binding(manifest),
        key,
        manifest_ref,
        key,
        res,
    );
}

/// With such a cipher, a packfile does not unpack under another manifest.
pub proof fn law_wrong_manifest_fails<E: Encryption>(
    bytes: Seq<u8>,
    records: Seq<RecordView<Seq<u8>>>,
    a: PackManifestRef,
    b: PackManifestRef,
    key: Seq<u8>,
    res: Result<Seq<RecordView<Seq<u8>>>, CodecError>,
)
    requires
        is_authentic::<E>(),
        a != b,
        packs_to::<E>(records, body_binding(a), key, Ok::<Seq<u8>, CodecError>(bytes)),
        unpacks_to::<E>(bytes, body_binding(b), key, res),
    ensures
        res is Err && res->Err_0 is Decrypt,
{
    lemma_refused::<E>(bytes, records, body_binding(a), key, b, key, res);
}

/// With such a cipher, a packfile does not unpack with another key.
pub proof fn law_wrong_key_fails<E: Encryption>(
    bytes: Seq<u8>,
    records: Seq<RecordView<Seq<u8>>>,
    manifest_ref: PackManifestRef,
    key_a: Seq<u8>,
    key_b: Seq<u8>,
    res: Result<Seq<RecordView<Seq<u8>>>, CodecError>,
)
    requires
        is_authentic::<E>(),
        key_a != key_b,
        packs_to::<E>(
            records,
            body_binding(manifest_ref),
            key_a,
            Ok::<Seq<u8>, CodecError>(bytes),
        ),
        unpacks_to::<E>(bytes, body_binding(manifest_ref), key_b, res),
    ensures
        res is Err && res->Err_0 is Decrypt,
{
    lemma_refused::<E>(
        bytes,
        records,
        body_binding(manifest_ref),
        key_a,
        manifest_ref,
        key_b,
        res,
    );
}

proof fn lemma_refused<E: Encryption>(
    bytes: Seq<u8>,
    records: Seq<RecordView<Seq<u8>>>,
    sealed_ad: Binding,
    sealed_key: Seq<u8>,
    manifest_ref: PackManifestRef,
    key: Seq<u8>,
    res: Result<Seq<RecordView<Seq<u8>>>, CodecError>,
)
    requires
        is_authentic::<E>(),
        is_packed::<E>(bytes, records, sealed_ad, sealed_key),
        sealed_ad != body_binding(manifest_ref) || sealed_key != key,
        unpacks_to::<E>(bytes, body_binding(manifest_ref), key, res),
    ensures
        res is Err && res->Err_0 is Decrypt,
{
    let envelope = choose|envelope: (Seq<char>, Seq<char>)| #[trigger]
        seals::<E>(envelope, records, sealed_ad, sealed_key) && is_envelope(bytes, envelope);
    let body = choose|body: Seq<u8>| #[trigger]
        is_body(body, records) && encrypts_to::<E>(body, sealed_ad, sealed_key, envelope);
    law_unpack_refuses_what_is_not_its_own::<E>(
        bytes,
        envelope,
        body,
        sealed_ad,
        sealed_key,
        manifest_ref,
        key,
        res,
    );
}

} // verus!
