//! Packing and unpacking with a real cipher: PASETO v4 local tokens, bound by an implicit assertion.

use atuin_client::packfile::codec::{
    pack, packed_records, read_content, read_opened, seal_compressed, unpack, unpacked_records,
    write_envelope, CodecError, PackManifestRef, PackedRecord, COMPRESSION_LEVEL,
    PACKFILE_BODY_VERSION,
};
use atuin_client::packfile::record::{PACKFILE_TAG, PACKFILE_VERSION};
use atuin_client::record::domain::{
    AdditionalData, DecryptedData, EncryptedData, Host, HostId, Record, RecordId,
};
use atuin_client::record::encryption::Encryption;
use base64::engine::general_purpose::URL_SAFE_NO_PAD;
use base64::Engine;
use uuid::Uuid;

type V4 = rusty_paseto::core::V4;
type Local = rusty_paseto::core::Local;
type Token<'a> = rusty_paseto::core::Paseto<'a, V4, Local>;
type Nonce<'a> = rusty_paseto::core::PasetoNonce<'a, V4, Local>;
type TokenKey = rusty_paseto::core::PasetoSymmetricKey<V4, Local>;
type Bytes32 = rusty_paseto::core::Key<32>;
type Assertion<'a> = rusty_paseto::core::ImplicitAssertion<'a>;
type Payload<'a> = rusty_paseto::core::Payload<'a>;

struct PasetoV4;

fn assertion(ad: &AdditionalData<'_>) -> String {
    format!("{:?}", (ad.id, ad.idx, ad.version, ad.tag, ad.host))
}

impl Encryption for PasetoV4 {
    fn encrypt(data: DecryptedData, ad: AdditionalData<'_>, key: &[u8; 32]) -> EncryptedData {
        let content_key = Bytes32::try_new_random().unwrap();
        let nonce = Bytes32::try_new_random().unwrap();
        let bound = assertion(&ad);
        let payload = URL_SAFE_NO_PAD.encode(&data.0);
        let data = Token::builder()
            .set_payload(Payload::from(payload.as_str()))
            .set_implicit_assertion(Assertion::from(bound.as_str()))
            .try_encrypt(
                &TokenKey::from(Bytes32::from(&*content_key)),
                &Nonce::from(&nonce),
            )
            .unwrap();
        let wrapped = URL_SAFE_NO_PAD.encode(&*content_key);
        let content_encryption_key = Token::builder()
            .set_payload(Payload::from(wrapped.as_str()))
            .try_encrypt(
                &TokenKey::from(Bytes32::from(key)),
                &Nonce::from(&nonce),
            )
            .unwrap();
        EncryptedData { data, content_encryption_key }
    }

    fn decrypt(
        data: EncryptedData,
        ad: AdditionalData<'_>,
        key: &[u8; 32],
    ) -> Result<DecryptedData, String> {
        let wrapped = Token::try_decrypt(
            &data.content_encryption_key,
            &TokenKey::from(Bytes32::from(key)),
            None,
            None,
        )
        .map_err(|e| e.to_string())?;
        let content_key = URL_SAFE_NO_PAD.decode(wrapped).map_err(|e| e.to_string())?;
        let bound = assertion(&ad);
        let payload = Token::try_decrypt(
            &data.data,
            &TokenKey::from(Bytes32::from(content_key.as_slice())),
            None,
            Some(Assertion::from(bound.as_str())),
        )
        .map_err(|e| e.to_string())?;
        let plain = URL_SAFE_NO_PAD.decode(payload).map_err(|e| e.to_string())?;
        Ok(DecryptedData(plain))
    }
}

/// A cipher that hands its input through, and refuses what it is told to refuse.
struct Clear;

impl Encryption for Clear {
    fn encrypt(data: DecryptedData, _ad: AdditionalData<'_>, _key: &[u8; 32]) -> EncryptedData {
        EncryptedData {
            data: URL_SAFE_NO_PAD.encode(&data.0),
            content_encryption_key: String::from("clear"),
        }
    }

    fn decrypt(
        data: EncryptedData,
        _ad: AdditionalData<'_>,
        _key: &[u8; 32],
    ) -> Result<DecryptedData, String> {
        if data.content_encryption_key == "clear" {
            Ok(DecryptedData(URL_SAFE_NO_PAD.decode(data.data).unwrap()))
        } else {
            Err(String::from("not clear"))
        }
    }
}

fn key() -> [u8; 32] {
    [7u8; 32]
}

fn uuid_v7() -> u128 {
    Uuid::now_v7().as_u128()
}

fn manifest_ref() -> PackManifestRef {
    PackManifestRef { id: RecordId(uuid_v7()), idx: 42, host: HostId(uuid_v7()) }
}

fn records(n: usize) -> Vec<Record<DecryptedData>> {
    let host = Host::new(HostId(uuid_v7()));
    (0..n)
        .map(|i| Record {
            id: RecordId(uuid_v7()),
            idx: i as u64,
            host: host.clone(),
            timestamp: 1_700_000_000_000_000_000 + 1_000 * i as u64,
            version: String::from("v1"),
            tag: String::from("history"),
            data: DecryptedData(b"ls -la /very/repetitive/path".to_vec()),
        })
        .collect()
}

/// The records as a list of tuples, in the shape in which a packfile holds them.
fn raw(records: &[Record<DecryptedData>]) -> Vec<u8> {
    let rows: Vec<(Uuid, u64, (Uuid, String), u64, String, String, Vec<u8>)> = records
        .iter()
        .map(|r| {
            (
                Uuid::from_u128(r.id.0),
                r.idx,
                (Uuid::from_u128(r.host.id.0), r.host.name.clone()),
                r.timestamp,
                r.version.clone(),
                r.tag.clone(),
                r.data.0.clone(),
            )
        })
        .collect();
    rmp_serde::to_vec(&rows).unwrap()
}

/// A deterministic source of varied values.
struct Varied(u64);

impl Varied {
    fn next(&mut self) -> u64 {
        self.0 ^= self.0 << 13;
        self.0 ^= self.0 >> 7;
        self.0 ^= self.0 << 17;
        self.0
    }

    fn wide(&mut self) -> u128 {
        ((self.next() as u128) << 64) | self.next() as u128
    }

    fn name(&mut self) -> String {
        let n = 1 + self.next() % 8;
        (0..n)
            .map(|_| {
                let k = (self.next() % 36) as u32;
                char::from_digit(k, 36).unwrap()
            })
            .collect()
    }

    fn bytes(&mut self, limit: u64) -> Vec<u8> {
        let n = self.next() % limit;
        (0..n).map(|_| self.next() as u8).collect()
    }

    fn record(&mut self) -> Record<DecryptedData> {
        Record {
            id: RecordId(self.wide()),
            idx: self.next(),
            host: Host::new(HostId(self.wide())),
            timestamp: self.next(),
            version: self.name(),
            tag: self.name(),
            data: DecryptedData(self.bytes(48)),
        }
    }

    fn records(&mut self) -> Vec<Record<DecryptedData>> {
        let n = self.next() % 16;
        (0..n).map(|_| self.record()).collect()
    }

    fn manifest_ref(&mut self) -> PackManifestRef {
        PackManifestRef {
            id: RecordId(self.wide()),
            idx: self.next(),
            host: HostId(self.wide()),
        }
    }

    fn key(&mut self) -> [u8; 32] {
        let mut key = [0u8; 32];
        for byte in key.iter_mut() {
            *byte = self.next() as u8;
        }
        key
    }
}

#[test]
fn round_trips() {
    let mut varied = Varied(0x9e37_79b9_7f4a_7c15);
    for _ in 0..64 {
        let (records, manifest_ref, key) =
            (varied.records(), varied.manifest_ref(), varied.key());
        let bytes = pack::<PasetoV4>(&records, &manifest_ref, &key).unwrap();
        let out = unpack::<PasetoV4>(&bytes, &manifest_ref, &key).unwrap();
        assert_eq!(records, out);
    }
}

#[test]
fn wrong_manifest_ref_fails() {
    let mut varied = Varied(0xd1b5_4a32_d192_ed03);
    for _ in 0..64 {
        let (records, a, b, key) =
            (varied.records(), varied.manifest_ref(), varied.manifest_ref(), varied.key());
        assert_ne!((a.id.0, a.idx, a.host.0), (b.id.0, b.idx, b.host.0));
        let bytes = pack::<PasetoV4>(&records, &a, &key).unwrap();
        assert!(unpack::<PasetoV4>(&bytes, &b, &key).is_err());
    }
}

#[test]
fn each_part_of_the_manifest_ref_counts() {
    let (a, k) = (manifest_ref(), key());
    let bytes = pack::<PasetoV4>(&records(3), &a, &k).unwrap();
    for b in [
        PackManifestRef { id: RecordId(a.id.0 ^ 1), ..a },
        PackManifestRef { idx: 43, ..a },
        PackManifestRef { host: HostId(a.host.0 ^ 1), ..a },
    ] {
        assert!(matches!(unpack::<PasetoV4>(&bytes, &b, &k), Err(CodecError::Decrypt(_))));
    }
    assert_eq!(unpack::<PasetoV4>(&bytes, &a, &k).unwrap().len(), 3);
}

#[test]
fn wrong_key_fails() {
    let mut varied = Varied(0x2545_f491_4f6c_dd1d);
    for _ in 0..64 {
        let (records, manifest_ref, key_a, key_b) =
            (varied.records(), varied.manifest_ref(), varied.key(), varied.key());
        assert_ne!(key_a, key_b);
        let bytes = pack::<PasetoV4>(&records, &manifest_ref, &key_a).unwrap();
        assert!(unpack::<PasetoV4>(&bytes, &manifest_ref, &key_b).is_err());
    }
}

#[test]
fn compresses_repetitive_records() {
    let (a, k) = (manifest_ref(), key());
    let input = records(200);
    let raw = raw(&input).len();
    let packed = pack::<PasetoV4>(&input, &a, &k).unwrap().len();
    assert!(packed * 4 < raw, "packed {packed} should be << raw {raw}");
}

#[test]
fn manifest_ciphertext_is_not_a_valid_body() {
    let (a, k) = (manifest_ref(), key());
    let ad = AdditionalData {
        id: &a.id,
        idx: &a.idx,
        version: PACKFILE_VERSION,
        tag: PACKFILE_TAG,
        host: &a.host,
    };
    let manifest = PasetoV4::encrypt(DecryptedData(b"manifest".to_vec()), ad, &k);
    let bytes = rmp_serde::to_vec(&(manifest.data, manifest.content_encryption_key)).unwrap();
    assert!(unpack::<PasetoV4>(&bytes, &a, &k).is_err());
}

#[test]
fn a_body_is_bound_to_its_manifest() {
    let a = manifest_ref();
    let ad = AdditionalData::from(&a);
    assert_eq!(*ad.id, a.id);
    assert_eq!(*ad.idx, 42);
    assert_eq!(*ad.host, a.host);
    assert_eq!(ad.tag, "packfile");
    assert_eq!(ad.version, "packfile-body-v1");
    assert_eq!(PACKFILE_BODY_VERSION, "packfile-body-v1");
    assert_ne!(PACKFILE_BODY_VERSION, PACKFILE_VERSION);
}

#[test]
fn a_manifest_ref_is_the_identity_of_its_record() {
    let record = records(4).pop().unwrap();
    let expected = PackManifestRef { id: record.id, idx: 3, host: record.host.id };
    assert_eq!(PackManifestRef::from(&record), expected);
}

#[test]
fn what_is_inside_a_packfile() {
    let (a, k) = (manifest_ref(), key());
    let input = records(5);
    let bytes = pack::<Clear>(&input, &a, &k).unwrap();
    let (data, cek): (String, String) = rmp_serde::from_slice(&bytes).unwrap();
    assert_eq!(cek, "clear");
    let frame = URL_SAFE_NO_PAD.decode(data).unwrap();
    assert_eq!(frame[..4], [0x28, 0xb5, 0x2f, 0xfd]);
    assert_eq!(COMPRESSION_LEVEL, 3);
    assert_eq!(frame, zstd::stream::encode_all(raw(&input).as_slice(), 3).unwrap());
    assert_eq!(zstd::stream::decode_all(frame.as_slice()).unwrap(), raw(&input));
}

#[test]
fn exact_bytes_of_a_record() {
    let record = Record {
        id: RecordId(0x0102_0304_0506_0708_090a_0b0c_0d0e_0f10),
        idx: 5,
        host: Host { id: HostId(0), name: String::from("h") },
        timestamp: 300,
        version: String::from("v1"),
        tag: String::from("t"),
        data: DecryptedData(vec![1, 200]),
    };
    let mut expected = vec![0x91, 0x97, 0xc4, 16];
    expected.extend(1u8..=16);
    expected.extend([5, 0x92, 0xc4, 16]);
    expected.extend([0u8; 16]);
    expected.extend([0xa1, b'h', 0xcd, 1, 44, 0xa2, b'v', b'1', 0xa1, b't', 0x92, 1, 0xcc, 200]);
    let bytes = pack::<Clear>(&[record], &manifest_ref(), &key()).unwrap();
    let (data, _): (String, String) = rmp_serde::from_slice(&bytes).unwrap();
    let frame = URL_SAFE_NO_PAD.decode(data).unwrap();
    assert_eq!(zstd::stream::decode_all(frame.as_slice()).unwrap(), expected);
}

#[test]
fn nothing_packs_and_unpacks() {
    let (a, k) = (manifest_ref(), key());
    let bytes = pack::<PasetoV4>(&[], &a, &k).unwrap();
    assert_eq!(unpack::<PasetoV4>(&bytes, &a, &k).unwrap(), vec![]);
}

#[test]
fn texts_and_names_survive() {
    let (a, k) = (manifest_ref(), key());
    let mut record = records(1).pop().unwrap();
    record.host.name = String::from("höst \u{1f41a}");
    record.tag = String::new();
    record.data = DecryptedData((0u8..=255).collect());
    let bytes = pack::<PasetoV4>(&[record.clone()], &a, &k).unwrap();
    assert_eq!(unpack::<PasetoV4>(&bytes, &a, &k).unwrap(), vec![record]);
}

#[test]
fn records_take_the_form_of_the_packfile() {
    let input = records(2);
    let packed = packed_records(&input).unwrap();
    assert_eq!(packed.len(), 2);
    assert_eq!(packed[1].idx, 1);
    assert_eq!(packed[1].data, b"ls -la /very/repetitive/path".to_vec());
    assert_eq!(packed[0], PackedRecord::from(&input[0]));
    assert_eq!(Record::from(packed[0].clone()), input[0]);
    assert_eq!(unpacked_records(packed), input);
}

#[test]
fn bytes_that_are_no_envelope() {
    let (a, k) = (manifest_ref(), key());
    for bytes in [vec![], vec![0xc1], vec![0x92, 0xa1, b'x'], b"hello".to_vec()] {
        assert!(matches!(unpack::<PasetoV4>(&bytes, &a, &k), Err(CodecError::Decode(_))));
    }
}

#[test]
fn an_envelope_that_does_not_open() {
    let (a, k) = (manifest_ref(), key());
    let envelope =
        EncryptedData { data: String::from("d"), content_encryption_key: String::from("k") };
    let bytes = write_envelope(&envelope).unwrap();
    assert_eq!(bytes, vec![0x92, 0xa1, b'd', 0xa1, b'k']);
    assert_eq!(
        unpack::<Clear>(&bytes, &a, &k),
        Err(CodecError::Decrypt(String::from("not clear")))
    );
}

#[test]
fn what_follows_an_envelope_is_not_looked_at() {
    let (a, k) = (manifest_ref(), key());
    let input = records(2);
    let mut bytes = pack::<PasetoV4>(&input, &a, &k).unwrap();
    bytes.extend(b"more");
    assert_eq!(unpack::<PasetoV4>(&bytes, &a, &k).unwrap(), input);
}

#[test]
fn a_body_that_does_not_decompress() {
    let opened = Ok(DecryptedData(b"not a frame".to_vec()));
    let msg = String::from("Unknown frame descriptor");
    assert_eq!(read_opened(opened), Err(CodecError::Decompress(msg)));
    let mut cut = zstd::stream::encode_all(&b"hello"[..], 3).unwrap();
    cut.pop();
    let msg = String::from("incomplete frame");
    assert_eq!(read_opened(Ok(DecryptedData(cut))), Err(CodecError::Decompress(msg)));
}

#[test]
fn a_content_that_does_not_decode() {
    let frame = zstd::stream::encode_all(&b"hello"[..], 3).unwrap();
    assert!(matches!(read_opened(Ok(DecryptedData(frame))), Err(CodecError::Decode(_))));
}

#[test]
fn what_the_compressor_answers() {
    let (a, k) = (manifest_ref(), key());
    let msg = String::from("Allocation error : not enough memory");
    assert_eq!(
        seal_compressed::<Clear>(Err(msg.clone()), &a, &k),
        Err(CodecError::Compress(msg.clone()))
    );
    let bytes = seal_compressed::<Clear>(Ok(vec![0, 1, 2]), &a, &k).unwrap();
    let (data, cek): (String, String) = rmp_serde::from_slice(&bytes).unwrap();
    assert_eq!((data, cek.as_str()), (URL_SAFE_NO_PAD.encode([0, 1, 2]), "clear"));

    assert_eq!(read_content(Err(msg.clone())), Err(CodecError::Decompress(msg)));
    let input = records(3);
    assert_eq!(read_content(Ok(raw(&input))), Ok(input));
    assert!(matches!(read_content(Ok(vec![0xc1])), Err(CodecError::Decode(_))));
}

#[test]
fn messages_of_codec_errors() {
    let msg = String::from("why");
    assert_eq!(CodecError::TooLarge.message(), "too large for a packfile");
    assert_eq!(CodecError::Compress(msg.clone()).message(), "why");
    assert_eq!(CodecError::Decode(msg.clone()).message(), "why");
    assert_eq!(CodecError::Decrypt(msg.clone()).message(), "why");
    assert_eq!(CodecError::Decompress(msg).message(), "why");
}

#[test]
fn a_record_is_bound_to_itself() {
    let k = key();
    let record = records(1).pop().unwrap();
    let sealed = record.clone().encrypt::<PasetoV4>(&k);
    assert_eq!(sealed.id, record.id);
    assert_eq!(sealed.timestamp, record.timestamp);
    assert_eq!(sealed.clone().decrypt::<PasetoV4>(&k).unwrap(), record);
    assert!(sealed.clone().decrypt::<PasetoV4>(&[8u8; 32]).is_err());
    let mut moved = sealed.clone();
    moved.idx = 9;
    assert!(moved.decrypt::<PasetoV4>(&k).is_err());
    let mut retagged = sealed;
    retagged.tag = String::from("other");
    assert!(retagged.decrypt::<PasetoV4>(&k).is_err());
}
