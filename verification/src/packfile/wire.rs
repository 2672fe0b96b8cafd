//! The encodings a packfile is made of: MessagePack for records and for the encrypted envelope,
//! zstd for what is inside it.

use uuid::Uuid;
use vstd::prelude::*;
use vstd::utf8::encode_utf8;

use crate::packfile::codec::{packed_views, PackedRecord};
use crate::record::domain::{EncryptedData, Host, HostId, RecordId, RecordView};

verus! {

/// The longest string or list that a MessagePack length field can announce.
pub const MAX_LEN: u32 = 0xffff_ffff;

/// Whether the length of a text, in UTF-8, fits a length field.
pub open spec fn text_fits(text: Seq<char>) -> bool {
    encode_utf8(text).len() <= MAX_LEN
}

/// Whether every length in a record fits a length field.
pub open spec fn record_fits(record: RecordView<Seq<u8>>) -> bool {
    &&& text_fits(record.host_name)
    &&& text_fits(record.version)
    &&& text_fits(record.tag)
    &&& record.data.len() <= MAX_LEN
}

/// Whether every length in a list of records, and its own, fits a length field.
pub open spec fn records_fit(records: Seq<RecordView<Seq<u8>>>) -> bool {
    &&& records.len() <= MAX_LEN
    &&& forall|i: int| 0 <= i < records.len() ==> record_fits(#[trigger] records[i])
}

/// Whether both strings of an envelope fit a length field.
pub open spec fn envelope_fits(envelope: (Seq<char>, Seq<char>)) -> bool {
    text_fits(envelope.0) && text_fits(envelope.1)
}

/// The MessagePack encoding of a list of records.
pub uninterp spec fn msgpack_records(records: Seq<RecordView<Seq<u8>>>) -> Seq<u8>;

/// The list of records that MessagePack reads off the front of `bytes`, or the text of its
/// refusal.
pub uninterp spec fn msgpack_read_records(bytes: Seq<u8>) -> Result<
    Seq<RecordView<Seq<u8>>>,
    Seq<char>,
>;

/// The MessagePack encoding of an encrypted envelope.
pub uninterp spec fn msgpack_envelope(envelope: (Seq<char>, Seq<char>)) -> Seq<u8>;

/// The envelope that MessagePack reads off the front of `bytes`, or the text of its refusal.
pub uninterp spec fn msgpack_read_envelope(bytes: Seq<u8>) -> Result<
    (Seq<char>, Seq<char>),
    Seq<char>,
>;

/// The zstd frame that holds `bytes`, compressed at `level`.
pub uninterp spec fn zstd_frame(bytes: Seq<u8>, level: int) -> Seq<u8>;

/// What the zstd frames in `bytes` hold, or the text of the refusal to read them.
pub uninterp spec fn zstd_content(bytes: Seq<u8>) -> Result<Seq<u8>, Seq<char>>;

/// `rmp_serde::encode::write`, into a vector, of a list of records, each as an array of its fields:
/// the id, the index, the host as an array of its id and name, the timestamp, the version, the tag
/// and the data. An id is the 16 bytes of its UUID, the data an array of numbers.
///
/// Claimed: the bytes depend on the records alone, and `rmp_serde::from_slice` reads the same list
/// back. It does not fail: numbers, strings, arrays and bytes all have an encoding, and a vector
/// takes every write. Past the reach of a length field it would miscount, so such records are not
/// handed to it.
#[verifier::external_body]
pub(crate) fn encode_records(records: &Vec<PackedRecord>) -> (bytes: Vec<u8>)
    requires
        records_fit(packed_views(records@)),
    ensures
        bytes@ == msgpack_records(packed_views(records@)),
        (msgpack_read_records(bytes@) == Ok::<Seq<RecordView<Seq<u8>>>, Seq<char>>(
            packed_views(records@),
        )),
{
    let rows: Vec<_> = records.iter().map(|r| {
        let (id, host) = (Uuid::from_u128(r.id.0), Uuid::from_u128(r.host.id.0));
        (id, r.idx, (host, &r.host.name), r.timestamp, &r.version, &r.tag, &r.data)
    }).collect();
    let mut bytes: Vec<u8> = Vec::new();
    rmp_serde::encode::write(&mut bytes, &rows).expect("a vector takes every write");
    bytes
}

/// `rmp_serde::from_slice` on a list of records in the form of [`encode_records`].
///
/// Claimed: the list, or the text of the error, depends on the bytes alone. It reads each record as an
/// array only, never as a map of its fields. Bytes behind the list are not looked at.
#[verifier::external_body]
pub(crate) fn decode_records(bytes: &[u8]) -> (res: Result<Vec<PackedRecord>, String>)
    ensures
        match res {
            Ok(records) => msgpack_read_records(bytes@) == Ok::<
                Seq<RecordView<Seq<u8>>>,
                Seq<char>,
            >(packed_views(records@)),
            Err(msg) => msgpack_read_records(bytes@) == Err::<
                Seq<RecordView<Seq<u8>>>,
                Seq<char>,
            >(msg@),
        },
{
    let rows: Vec<(Uuid, u64, (Uuid, String), u64, String, String, Vec<u8>)> =
        rmp_serde::from_slice(bytes).map_err(|e: rmp_serde::decode::Error| e.to_string())?;
    Ok(rows.into_iter().map(|(id, idx, (host, name), timestamp, version, tag, data)| {
        let host = Host { id: HostId(host.as_u128()), name };
        PackedRecord { id: RecordId(id.as_u128()), idx, host, timestamp, version, tag, data }
    }).collect())
}

/// `rmp_serde::encode::write`, into a vector, of an envelope, as an array of its two strings.
///
/// Claimed: the bytes depend on the envelope alone, and `rmp_serde::from_slice` reads the same
/// envelope back. It does not fail: strings and arrays have an encoding, and a vector takes every
/// write.
#[verifier::external_body]
pub(crate) fn encode_envelope(envelope: &EncryptedData) -> (bytes: Vec<u8>)
    requires
        envelope_fits(envelope@),
    ensures
        bytes@ == msgpack_envelope(envelope@),
        (msgpack_read_envelope(bytes@) == Ok::<(Seq<char>, Seq<char>), Seq<char>>(envelope@)),
{
    let mut bytes: Vec<u8> = Vec::new();
    let parts = (&envelope.data, &envelope.content_encryption_key);
    rmp_serde::encode::write(&mut bytes, &parts).expect("a vector takes every write");
    bytes
}

/// `rmp_serde::from_slice` on an envelope in the form of [`encode_envelope`].
///
/// Claimed: the envelope, or the text of the error, depends on the bytes alone. It reads an array only,
/// never a map of the two strings. Bytes behind the envelope are not looked at.
#[verifier::external_body]
pub(crate) fn decode_envelope(bytes: &[u8]) -> (res: Result<EncryptedData, String>)
    ensures
        match res {
            Ok(envelope) => msgpack_read_envelope(bytes@) == Ok::<
                (Seq<char>, Seq<char>),
                Seq<char>,
            >(envelope@),
            Err(msg) => msgpack_read_envelope(bytes@) == Err::<(Seq<char>, Seq<char>), Seq<char>>(
                msg@,
            ),
        },
{
    let (data, content_encryption_key): (String, String) =
        rmp_serde::from_slice(bytes).map_err(|e: rmp_serde::decode::Error| e.to_string())?;
    Ok(EncryptedData { data, content_encryption_key })
}

/// What zstd says where it cannot get memory for its tables or its window.
pub const OUT_OF_MEMORY: &'static str = "Allocation error : not enough memory";

/// `zstd::stream::encode_all` on a slice.
///
/// Claimed: the frame depends on the bytes and the level alone (the encoder runs on one thread),
/// and `zstd::stream::decode_all` reads the same bytes back. It fails only where the C library
/// cannot get memory, and says so; when that happens is the machine's affair and left open.
#[verifier::external_body]
pub(crate) fn compress(bytes: &[u8], level: i32) -> (res: Result<Vec<u8>, String>)
    requires
        1 <= level <= 22,
    ensures
        match res {
            Ok(frame) => {
                &&& frame@ == zstd_frame(bytes@, level as int)
                &&& zstd_content(frame@) == Ok::<Seq<u8>, Seq<char>>(bytes@)
            },
            Err(msg) => msg@ == OUT_OF_MEMORY@,
        },
{
    zstd::stream::encode_all(bytes, level).map_err(|e| e.to_string())
}

/// `zstd::stream::decode_all` on a slice.
///
/// Claimed: what it returns, or the text that it fails with, depends on the bytes alone, but for where
/// the C library cannot get memory, and says so; when that happens is the machine's affair and left
/// open.
#[verifier::external_body]
pub(crate) fn decompress(bytes: &[u8]) -> (res: Result<Vec<u8>, String>)
    ensures
        match res {
            Ok(content) => zstd_content(bytes@) == Ok::<Seq<u8>, Seq<char>>(content@),
            Err(msg) => zstd_content(bytes@) == Err::<Seq<u8>, Seq<char>>(msg@) || msg@
                == OUT_OF_MEMORY@,
        },
{
    zstd::stream::decode_all(bytes).map_err(|e| e.to_string())
}

/// The compressor, asked to compress `bytes` at `level`, may give this answer.
pub closed spec fn compresses_to(
    bytes: Seq<u8>,
    level: i32,
    answer: Result<Vec<u8>, String>,
) -> bool {
    exists|b: &[u8]| #[trigger] call_ensures(compress, (b, level), answer) && b@ == bytes
}

/// The decompressor, asked to decompress `bytes`, may give this answer.
pub closed spec fn decompresses_to(bytes: Seq<u8>, answer: Result<Vec<u8>, String>) -> bool {
    exists|b: &[u8]| #[trigger] call_ensures(decompress, (b,), answer) && b@ == bytes
}

pub(crate) proof fn lemma_compressed(bytes: &[u8], level: i32, answer: Result<Vec<u8>, String>)
    requires
        call_ensures(compress, (bytes, level), answer),
    ensures
        compresses_to(bytes@, level, answer),
{
}

pub(crate) proof fn lemma_decompressed(bytes: &[u8], answer: Result<Vec<u8>, String>)
    requires
        call_ensures(decompress, (bytes,), answer),
    ensures
        decompresses_to(bytes@, answer),
{
}

/// A frame is what the compressor makes of the bytes and reads back as them; the only failure is one
/// for want of memory.
pub proof fn law_compressor_answers(bytes: Seq<u8>, level: i32, answer: Result<Vec<u8>, String>)
    requires
        compresses_to(bytes, level, answer),
    ensures
        match answer {
            Ok(frame) => {
                &&& frame@ == zstd_frame(bytes, level as int)
                &&& zstd_content(frame@) == Ok::<Seq<u8>, Seq<char>>(bytes)
            },
            Err(msg) => msg@ == OUT_OF_MEMORY@,
        },
{
}

/// The decompressor gives what the frames hold, or refuses as it must, or has run out of memory.
pub proof fn law_decompressor_answers(bytes: Seq<u8>, answer: Result<Vec<u8>, String>)
    requires
        decompresses_to(bytes, answer),
    ensures
        match answer {
            Ok(content) => zstd_content(bytes) == Ok::<Seq<u8>, Seq<char>>(content@),
            Err(msg) => zstd_content(bytes) == Err::<Seq<u8>, Seq<char>>(msg@) || msg@
                == OUT_OF_MEMORY@,
        },
{
}

} // verus!
