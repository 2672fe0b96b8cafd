//! What holds of every packfile, and of every bundle that goes up or comes down, said of what goes in
//! and what comes out.

use vstd::prelude::*;
use vstd::utf8::encode_utf8;

use crate::packfile::codec::{
    body_binding, bytes_result, compressed_seals_as, content_reads_as, opened_reads_as, pack,
    packed_records, packed_views, packs_to, read_content, read_opened, records_result,
    seal_compressed, unpack, unpacked_records, unpacks_to, write_envelope, CodecError,
    PackManifestRef, PackedRecord, COMPRESSION_LEVEL,
};
use crate::packfile::wire::{
    compresses_to, decompresses_to, envelope_fits, msgpack_envelope, msgpack_read_envelope,
    msgpack_read_records, msgpack_records, record_fits, records_fit, zstd_content,
};
use crate::record::domain::{
    views, AdditionalData, DecryptedData, EncryptedData, Record, RecordView,
};
use crate::record::encryption::{decrypts_to, encrypts_to, Encryption};

verus! {

/// The values of plain records, field by field.
pub open spec fn values_of(records: Seq<Record<DecryptedData>>) -> Seq<RecordView<Seq<u8>>> {
    Seq::new(
        records.len(),
        |i: int|
            RecordView {
                id: records[i].id,
                idx: records[i].idx,
                host: records[i].host.id,
                host_name: records[i].host.name@,
                timestamp: records[i].timestamp,
                version: records[i].version@,
                tag: records[i].tag@,
                data: records[i].data.0@,
            },
    )
}

/// The values of packed records, field by field.
pub open spec fn packed_values_of(records: Seq<PackedRecord>) -> Seq<RecordView<Seq<u8>>> {
    Seq::new(
        records.len(),
        |i: int|
            RecordView {
                id: records[i].id,
                idx: records[i].idx,
                host: records[i].host.id,
                host_name: records[i].host.name@,
                timestamp: records[i].timestamp,
                version: records[i].version@,
                tag: records[i].tag@,
                data: records[i].data@,
            },
    )
}

/// A text of at most 4294967295 bytes in UTF-8.
pub open spec fn is_short(text: Seq<char>) -> bool {
    encode_utf8(text).len() <= 0xffff_ffff
}

/// Nothing in the records is longer than a length of 32 bits can say, nor are there more of them.
pub open spec fn lengths_fit(values: Seq<RecordView<Seq<u8>>>) -> bool {
    &&& values.len() <= 0xffff_ffff
    &&& forall|i: int|
        0 <= i < values.len() ==> is_short((#[trigger] values[i]).host_name) && is_short(
            values[i].version,
        ) && is_short(values[i].tag) && values[i].data.len() <= 0xffff_ffff
}

proof fn lemma_lengths_fit(values: Seq<RecordView<Seq<u8>>>)
    ensures
        lengths_fit(values) <==> records_fit(values),
{
    if lengths_fit(values) {
        assert forall|i: int| 0 <= i < values.len() implies record_fits(#[trigger] values[i]) by {}
    }
    if records_fit(values) {
        assert forall|i: int| 0 <= i < values.len() implies is_short(
            (#[trigger] values[i]).host_name,
        ) && is_short(values[i].version) && is_short(values[i].tag) && values[i].data.len()
            <= 0xffff_ffff by {
            assert(record_fits(values[i]));
        }
    }
}

/// The cipher was asked to seal the frame as the body of the packfile of this manifest, and what it gave
/// is what was written, where both of its strings are short enough.
pub open spec fn is_sealed_frame<E: Encryption>(
    frame: Seq<u8>,
    manifest_ref: PackManifestRef,
    key: Seq<u8>,
    res: Result<Seq<u8>, CodecError>,
) -> bool {
    exists|d: DecryptedData, a: AdditionalData<'_>, k: &[u8; 32], e: EncryptedData| #[trigger]
        call_ensures(E::encrypt, (d, a, k), e) && d.0@ == frame && *a.id == manifest_ref.id
            && *a.idx == manifest_ref.idx && *a.host == manifest_ref.host && a.version@
            == "packfile-body-v1"@ && a.tag@ == "packfile"@ && k@ == key && match res {
            Ok(bytes) => is_short(e.data@) && is_short(e.content_encryption_key@) && bytes
                == msgpack_envelope((e.data@, e.content_encryption_key@)),
            Err(why) => why is TooLarge && !(is_short(e.data@) && is_short(
                e.content_encryption_key@,
            )),
        }
}

/// What comes of packing the records: `TooLarge` where a length does not fit; otherwise the compressor
/// was asked to compress the encoding of exactly these records, at level 3, and its failure is what
/// came of it, or its frame was sealed.
pub open spec fn packs_as<E: Encryption>(
    values: Seq<RecordView<Seq<u8>>>,
    manifest_ref: PackManifestRef,
    key: Seq<u8>,
    res: Result<Seq<u8>, CodecError>,
) -> bool {
    if lengths_fit(values) {
        exists|answer: Result<Vec<u8>, String>| #[trigger]
            compresses_to(msgpack_records(values), 3, answer) && match answer {
                Ok(frame) => is_sealed_frame::<E>(frame@, manifest_ref, key, res),
                Err(msg) => res == Err::<Seq<u8>, CodecError>(CodecError::Compress(msg)),
            }
    } else {
        res == Err::<Seq<u8>, CodecError>(CodecError::TooLarge)
    }
}

/// What the compressor gave is sealed as it is, and its failure handed on as it is.
pub proof fn law_frame_is_sealed_as_it_is<E: Encryption>(
    compressed: Result<Vec<u8>, String>,
    manifest_ref: &PackManifestRef,
    key: &[u8; 32],
    res: Result<Vec<u8>, CodecError>,
)
    requires
        call_ensures(seal_compressed::<E>, (compressed, manifest_ref, key), res),
    ensures
        match (compressed, res) {
            (Err(msg), Err(CodecError::Compress(said))) => said == msg,
            (Err(_), _) => false,
            (Ok(frame), Ok(bytes)) => is_sealed_frame::<E>(
                frame@,
                *manifest_ref,
                key@,
                Ok(bytes@),
            ),
            (Ok(frame), Err(why)) => is_sealed_frame::<E>(frame@, *manifest_ref, key@, Err(why)),
        },
{
    if compressed is Ok {
        lemma_sealed_frame::<E>(compressed->Ok_0, *manifest_ref, key@, bytes_result(res));
    }
}

proof fn lemma_sealed_frame<E: Encryption>(
    frame: Vec<u8>,
    manifest_ref: PackManifestRef,
    key: Seq<u8>,
    res: Result<Seq<u8>, CodecError>,
)
    requires
        compressed_seals_as::<E>(Ok(frame), body_binding(manifest_ref), key, res),
    ensures
        is_sealed_frame::<E>(frame@, manifest_ref, key, res),
{
    let ad = body_binding(manifest_ref);
    let envelope = choose|envelope: (Seq<char>, Seq<char>)| #[trigger]
        encrypts_to::<E>(frame@, ad, key, envelope) && match res {
            Ok(bytes) => envelope_fits(envelope) && bytes == msgpack_envelope(envelope),
            Err(e) => e == CodecError::TooLarge && !envelope_fits(envelope),
        };
    let (d, a, k, e) = choose|
        d: DecryptedData,
        a: AdditionalData<'static>,
        k: &'static [u8; 32],
        e: EncryptedData,
    | #[trigger]
        call_ensures(E::encrypt, (d, a, k), e) && d@ == frame@ && a@ == ad && k@ == key && e@
            == envelope;
    assert(call_ensures(E::encrypt, (d, a, k), e));
}

pub proof fn lemma_packs_as<E: Encryption>(
    values: Seq<RecordView<Seq<u8>>>,
    manifest_ref: PackManifestRef,
    key: Seq<u8>,
    res: Result<Seq<u8>, CodecError>,
)
    requires
        packs_to::<E>(values, body_binding(manifest_ref), key, res),
    ensures
        packs_as::<E>(values, manifest_ref, key, res),
{
    lemma_lengths_fit(values);
    if records_fit(values) {
        let answer = choose|answer: Result<Vec<u8>, String>| #[trigger]
            compresses_to(msgpack_records(values), COMPRESSION_LEVEL, answer)
                && compressed_seals_as::<E>(answer, body_binding(manifest_ref), key, res);
        if answer is Ok {
            lemma_sealed_frame::<E>(answer->Ok_0, manifest_ref, key, res);
        }
        assert(compresses_to(msgpack_records(values), 3, answer));
    }
}

/// Packing fails with a compressor's error only where the compressor, asked to compress the encoding of
/// exactly these records at the fixed level, gave that error; it fails with `TooLarge` exactly where
/// a length in the records, or in the envelope, does not fit. Where the records fit and the
/// compressor gave a frame, that frame, sealed, is the result.
pub proof fn law_pack_follows_the_compressor<E: Encryption>(
    records: &[Record<DecryptedData>],
    manifest_ref: &PackManifestRef,
    key: &[u8; 32],
    res: Result<Vec<u8>, CodecError>,
)
    requires
        call_ensures(pack::<E>, (records, manifest_ref, key), res),
    ensures
        match res {
            Ok(bytes) => packs_as::<E>(values_of(records@), *manifest_ref, key@, Ok(bytes@)),
            Err(e) => packs_as::<E>(values_of(records@), *manifest_ref, key@, Err(e)),
        },
        res matches Err(CodecError::Compress(msg)) ==> compresses_to(
            msgpack_records(values_of(records@)),
            3,
            Err(msg),
        ),
        !lengths_fit(values_of(records@)) ==> res == Err::<Vec<u8>, CodecError>(
            CodecError::TooLarge,
        ),
{
    assert(values_of(records@) =~= views(records@));
    lemma_packs_as::<E>(views(records@), *manifest_ref, key@, bytes_result(res));
}

/// What comes of unpacking: the bytes decode as an envelope, or the decoder's refusal is the result; the
/// cipher was asked to open it as the body of this manifest's packfile, and its refusal is the
/// result, or what it gave was handed to the decompressor; and the content decodes as the records, or
/// the decoder's refusal is the result.
pub open spec fn unpacks_as<E: Encryption>(
    bytes: Seq<u8>,
    manifest_ref: PackManifestRef,
    key: Seq<u8>,
    res: Result<Seq<RecordView<Seq<u8>>>, CodecError>,
) -> bool {
    match msgpack_read_envelope(bytes) {
        Err(text) => res is Err && res->Err_0 is Decode && res->Err_0->Decode_0@ == text,
        Ok(sealed) => exists|
            e: EncryptedData,
            a: AdditionalData<'_>,
            k: &[u8; 32],
            opened: Result<DecryptedData, String>,
        | #[trigger]
            call_ensures(E::decrypt, (e, a, k), opened) && e.data@ == sealed.0
                && e.content_encryption_key@ == sealed.1 && *a.id == manifest_ref.id && *a.idx
                == manifest_ref.idx && *a.host == manifest_ref.host && a.version@
                == "packfile-body-v1"@ && a.tag@ == "packfile"@ && k@ == key && opens_as(
                opened,
                res,
            ),
    }
}

/// What comes of what the cipher gave.
pub open spec fn opens_as(
    opened: Result<DecryptedData, String>,
    res: Result<Seq<RecordView<Seq<u8>>>, CodecError>,
) -> bool {
    match (opened, res) {
        (Err(text), Err(CodecError::Decrypt(msg))) => msg@ == text@,
        (Ok(body), Err(CodecError::Decompress(msg))) => decompresses_to(body.0@, Err(msg)),
        (Ok(body), Err(CodecError::Decode(msg))) => zstd_content(body.0@) is Ok
            && msgpack_read_records(zstd_content(body.0@)->Ok_0) == Err::<
            Seq<RecordView<Seq<u8>>>,
            Seq<char>,
        >(msg@),
        (Ok(body), Ok(values)) => zstd_content(body.0@) is Ok && msgpack_read_records(
            zstd_content(body.0@)->Ok_0,
        ) == Ok::<Seq<RecordView<Seq<u8>>>, Seq<char>>(values),
        _ => false,
    }
}

pub proof fn lemma_unpacks_as<E: Encryption>(
    bytes: Seq<u8>,
    manifest_ref: PackManifestRef,
    key: Seq<u8>,
    res: Result<Seq<RecordView<Seq<u8>>>, CodecError>,
)
    requires
        unpacks_to::<E>(bytes, body_binding(manifest_ref), key, res),
    ensures
        unpacks_as::<E>(bytes, manifest_ref, key, res),
{
    let ad = body_binding(manifest_ref);
    if msgpack_read_envelope(bytes) is Ok {
        let sealed = msgpack_read_envelope(bytes)->Ok_0;
        let opened = choose|opened: Result<DecryptedData, String>| #[trigger]
            decrypts_to::<E>(sealed, ad, key, opened) && opened_reads_as(opened, res);
        lemma_opens_as(opened, res);
        let (e, a, k) = choose|e: EncryptedData, a: AdditionalData<'static>, k: &'static [u8; 32]|
            #[trigger] call_ensures(E::decrypt, (e, a, k), opened) && e@ == sealed && a@ == ad && k@
                == key;
        assert(call_ensures(E::decrypt, (e, a, k), opened));
    } else {
        let text = msgpack_read_envelope(bytes)->Err_0;
        assert(res is Err);
    }
}

proof fn lemma_opens_as(
    opened: Result<DecryptedData, String>,
    res: Result<Seq<RecordView<Seq<u8>>>, CodecError>,
)
    requires
        opened_reads_as(opened, res),
    ensures
        opens_as(opened, res),
{
    if opened is Ok && !(res is Err && res->Err_0 is Decompress) {
        let content = zstd_content(opened->Ok_0@)->Ok_0;
        assert(content_reads_as(content, res));
        let read = msgpack_read_records(content);
        if read is Ok {
            assert(res->Ok_0 == read->Ok_0);
        } else {
            assert(res->Err_0->Decode_0@ == read->Err_0);
        }
    }
}

/// Unpacking answers as the decoder, the cipher and the decompressor do, asked in that order, each with
/// what the one before it gave.
pub proof fn law_unpack_follows_its_parts<E: Encryption>(
    bytes: &[u8],
    manifest_ref: &PackManifestRef,
    key: &[u8; 32],
    res: Result<Vec<Record<DecryptedData>>, CodecError>,
)
    requires
        call_ensures(unpack::<E>, (bytes, manifest_ref, key), res),
    ensures
        match res {
            Ok(records) => unpacks_as::<E>(
                bytes@,
                *manifest_ref,
                key@,
                Ok(values_of(records@)),
            ),
            Err(e) => unpacks_as::<E>(bytes@, *manifest_ref, key@, Err(e)),
        },
{
    if res is Ok {
        assert(values_of(res->Ok_0@) =~= views(res->Ok_0@));
    }
    lemma_unpacks_as::<E>(bytes@, *manifest_ref, key@, records_result(res));
}

/// The same holds of what the cipher gave, and of what the decompressor gave.
pub proof fn law_what_was_opened_is_read(
    opened: Result<DecryptedData, String>,
    from_opened: Result<Vec<Record<DecryptedData>>, CodecError>,
    content: Result<Vec<u8>, String>,
    from_content: Result<Vec<Record<DecryptedData>>, CodecError>,
)
    requires
        call_ensures(read_opened, (opened,), from_opened),
        call_ensures(read_content, (content,), from_content),
    ensures
        match from_opened {
            Ok(records) => opens_as(opened, Ok(values_of(records@))),
            Err(e) => opens_as(opened, Err(e)),
        },
        match (content, from_content) {
            (Err(msg), Err(CodecError::Decompress(said))) => said == msg,
            (Err(_), _) => false,
            (Ok(bytes), Ok(records)) => msgpack_read_records(bytes@) == Ok::<
                Seq<RecordView<Seq<u8>>>,
                Seq<char>,
            >(values_of(records@)),
            (Ok(bytes), Err(CodecError::Decode(msg))) => msgpack_read_records(bytes@) == Err::<
                Seq<RecordView<Seq<u8>>>,
                Seq<char>,
            >(msg@),
            (Ok(_), Err(_)) => false,
        },
{
    if from_opened is Ok {
        assert(values_of(from_opened->Ok_0@) =~= views(from_opened->Ok_0@));
    }
    lemma_opens_as(opened, records_result(from_opened));
    if from_content is Ok {
        assert(values_of(from_content->Ok_0@) =~= views(from_content->Ok_0@));
    }
    if content is Ok {
        let read = msgpack_read_records(content->Ok_0@);
        assert(content_reads_as(content->Ok_0@, records_result(from_content)));
        if read is Ok {
            assert(records_result(from_content)->Ok_0 == read->Ok_0);
        } else {
            assert(records_result(from_content)->Err_0->Decode_0@ == read->Err_0);
        }
    }
}

/// A list of records is packed record for record, every field of each unchanged, exactly where the
/// lengths fit; and it is unpacked in the same way.
pub proof fn law_packing_keeps_every_field(
    records: &[Record<DecryptedData>],
    packed: Option<Vec<PackedRecord>>,
    back: Vec<PackedRecord>,
    unpacked: Vec<Record<DecryptedData>>,
)
    requires
        call_ensures(packed_records, (records,), packed),
        call_ensures(unpacked_records, (back,), unpacked),
    ensures
        packed is Some <==> lengths_fit(values_of(records@)),
        packed matches Some(list) ==> packed_values_of(list@) == values_of(records@),
        values_of(unpacked@) == packed_values_of(back@),
{
    assert(values_of(records@) =~= views(records@));
    lemma_lengths_fit(values_of(records@));
    if packed is Some {
        assert(packed_values_of(packed->0@) =~= packed_views(packed->0@));
    }
    assert(values_of(unpacked@) =~= views(unpacked@));
    assert(packed_values_of(back@) =~= packed_views(back@));
}

/// One record is packed and unpacked with every field unchanged.
pub proof fn law_record_is_packed_field_by_field(
    record: &Record<DecryptedData>,
    packed: PackedRecord,
    back: PackedRecord,
    unpacked: Record<DecryptedData>,
)
    requires
        call_ensures(<PackedRecord as From<&Record<DecryptedData>>>::from, (record,), packed),
        call_ensures(<Record<DecryptedData> as From<PackedRecord>>::from, (back,), unpacked),
    ensures
        values_of(seq![*record]) == packed_values_of(seq![packed]),
        values_of(seq![unpacked]) == packed_values_of(seq![back]),
{
    assert(packed@ == record@);
    assert(unpacked@ == back@);
    let (a, b) = (values_of(seq![*record]), packed_values_of(seq![packed]));
    assert(a[0] == record@ && b[0] == packed@);
    assert(a =~= b);
    let (c, d) = (values_of(seq![unpacked]), packed_values_of(seq![back]));
    assert(c[0] == unpacked@ && d[0] == back@);
    assert(c =~= d);
}

/// A packfile is named by the id, the index and the host of its manifest record, and its body is bound
/// to these, the version of bodies and the packfile tag.
pub proof fn law_body_is_bound_to_its_manifest<T>(
    record: &Record<T>,
    named: PackManifestRef,
    manifest_ref: &PackManifestRef,
    ad: AdditionalData<'_>,
)
    requires
        call_ensures(<PackManifestRef as From<&Record<T>>>::from, (record,), named),
        call_ensures(<AdditionalData<'_> as From<&PackManifestRef>>::from, (manifest_ref,), ad),
    ensures
        named.id == record.id,
        named.idx == record.idx,
        named.host == record.host.id,
        *ad.id == manifest_ref.id,
        *ad.idx == manifest_ref.idx,
        *ad.host == manifest_ref.host,
        ad.version@ == "packfile-body-v1"@,
        ad.tag@ == "packfile"@,
{
    assert(ad@ == body_binding(*manifest_ref));
}

/// An envelope is written with both its strings, exactly where both are short enough.
pub proof fn law_envelope_is_written_whole(
    envelope: &EncryptedData,
    res: Result<Vec<u8>, CodecError>,
)
    requires
        call_ensures(write_envelope, (envelope,), res),
    ensures
        match res {
            Ok(bytes) => {
                &&& is_short(envelope.data@) && is_short(envelope.content_encryption_key@)
                &&& bytes@ == msgpack_envelope((envelope.data@, envelope.content_encryption_key@))
            },
            Err(e) => e is TooLarge && !(is_short(envelope.data@) && is_short(
                envelope.content_encryption_key@,
            )),
        },
{
}

/// What is said of a packfile that cannot be made or read is what the part that failed said.
pub proof fn law_codec_error_says_why(e: &CodecError, text: String)
    requires
        call_ensures(CodecError::message, (e,), text),
    ensures
        text@ == match *e {
            CodecError::TooLarge => "too large for a packfile"@,
            CodecError::Compress(msg) => msg@,
            CodecError::Decode(msg) => msg@,
            CodecError::Decrypt(msg) => msg@,
            CodecError::Decompress(msg) => msg@,
        },
{
}

} // verus!
