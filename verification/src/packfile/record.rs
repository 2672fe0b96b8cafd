//! The manifest record of a packfile: which run of history the packfile holds.

use vstd::prelude::*;
use vstd::std_specs::convert::TryFromSpecImpl;

use crate::record::domain::{EncryptedData, Record, RecordIdx};
use crate::text::{
    decimal, law_decimal_stands_for_its_number, lemma_decimal_injective, lemma_decimal_is_digits,
    lemma_digits_end, push_decimal, same_text, value_of,
};

verus! {

/// Tag under which packfile manifest records are stored.
pub const PACKFILE_TAG: &'static str = "packfile";

/// Version string of a packfile manifest record.
pub const PACKFILE_VERSION: &'static str = "packfile-v1";

/// What marks the first version of a manifest: the first characters of its data.
pub const MANIFEST_V1: &'static str = "001";

/// What a manifest record says.
#[derive(Clone, Copy, Debug, PartialEq, Eq, Structural)]
pub enum PackManifest {
    /// Version 1 of the manifest.
    V1(PackManifestDataV1),
}

/// The run of history that a packfile holds.
#[derive(Clone, Copy, Debug, PartialEq, Eq, Structural)]
pub struct PackManifestDataV1 {
    /// The first record in the packfile.
    pub start_idx: RecordIdx,
    /// The last record in the packfile.
    pub end_idx: RecordIdx,
}

impl PackManifestDataV1 {
    /// Whether the length of the run can be counted: it does not end before it starts, and is
    /// shorter than the whole range of indices.
    pub open spec fn is_countable(self) -> bool {
        self.start_idx <= self.end_idx && self.end_idx - self.start_idx < u64::MAX
    }

    /// How many records the run has: both ends count.
    pub fn count(&self) -> (count: u64)
        requires
            self.is_countable(),
        ensures
            count == self.end_idx - self.start_idx + 1,
    {
        self.end_idx - self.start_idx + 1
    }
}

/// Why a record is not a manifest.
#[derive(Clone, Debug, PartialEq, Eq)]
pub enum LoadingError {
    /// The record has this tag instead.
    WrongTag(String),
    /// The data does not start with a version that is known.
    UnknownVersion,
    /// What follows the version is not the body of a manifest.
    MalformedBody(String),
}

impl LoadingError {
    /// The message, as a value.
    pub open spec fn text(self) -> Seq<char> {
        match self {
            LoadingError::WrongTag(tag) => "\""@ + tag@ + "\" is not a packfile tag"@,
            LoadingError::UnknownVersion => "failed to find version bytes."@,
            LoadingError::MalformedBody(msg) => "invalid body: "@ + msg@,
        }
    }

    /// The message that says what went wrong.
    pub fn message(&self) -> (text: String)
        ensures
            text@ == self.text(),
    {
        match self {
            LoadingError::WrongTag(tag) => "\"".to_owned().concat(tag.as_str()).concat(
                "\" is not a packfile tag",
            ),
            LoadingError::UnknownVersion => "failed to find version bytes.".to_owned(),
            LoadingError::MalformedBody(msg) => "invalid body: ".to_owned().concat(msg.as_str()),
        }
    }
}

/// Why a manifest cannot be stored.
#[derive(Clone, Debug, PartialEq, Eq)]
pub enum StoringError {
    /// The body cannot be written.
    InvalidBody(String),
}

impl StoringError {
    /// The message, as a value.
    pub open spec fn text(self) -> Seq<char> {
        match self {
            StoringError::InvalidBody(msg) => "invalid body: "@ + msg@,
        }
    }

    /// The message that says what went wrong.
    pub fn message(&self) -> (text: String)
        ensures
            text@ == self.text(),
    {
        match self {
            StoringError::InvalidBody(msg) => "invalid body: ".to_owned().concat(msg.as_str()),
        }
    }
}

/// Whether the data of a manifest record is of the first version.
pub open spec fn is_v1(data: Seq<char>) -> bool {
    data.len() >= 3 && data.take(3) == MANIFEST_V1@
}

/// What a record's data must parse as, as JSON, for it to be a manifest; or why it is none.
pub open spec fn manifest_body(tag: Seq<char>, data: Seq<char>) -> Result<Seq<char>, LoadingView> {
    if tag != PACKFILE_TAG@ {
        Err(LoadingView::WrongTag(tag))
    } else if is_v1(data) {
        Ok(data.skip(3))
    } else {
        Err(LoadingView::UnknownVersion)
    }
}

/// The values of a [`LoadingError`].
pub ghost enum LoadingView {
    WrongTag(Seq<char>),
    UnknownVersion,
    MalformedBody(Seq<char>),
}

impl View for LoadingError {
    type V = LoadingView;

    open spec fn view(&self) -> LoadingView {
        match *self {
            LoadingError::WrongTag(tag) => LoadingView::WrongTag(tag@),
            LoadingError::UnknownVersion => LoadingView::UnknownVersion,
            LoadingError::MalformedBody(msg) => LoadingView::MalformedBody(msg@),
        }
    }
}

impl PackManifest {
    /// The JSON text of a manifest record, for a parser to read.
    pub fn body(value: &Record<EncryptedData>) -> (res: Result<String, LoadingError>)
        ensures
            match res {
                Ok(body) => manifest_body(value.tag@, value.data.data@) == Ok::<
                    Seq<char>,
                    LoadingView,
                >(body@),
                Err(e) => manifest_body(value.tag@, value.data.data@) == Err::<
                    Seq<char>,
                    LoadingView,
                >(e@),
            },
    {
        if !same_text(value.tag.as_str(), PACKFILE_TAG) {
            return Err(LoadingError::WrongTag(value.tag.clone()));
        }
        let data = value.data.data.as_str();
        let n: usize = data.unicode_len();
        // The first three characters are always reserved for the version of the manifest.
        if n >= 3 && same_text(data.substring_char(0, 3), MANIFEST_V1) {
            let body = data.substring_char(3, n);
            Ok(body.to_owned())
        } else {
            Err(LoadingError::UnknownVersion)
        }
    }

    /// The manifest that the body was read as, or why it could not be read.
    pub fn from_body(parsed: Result<PackManifestDataV1, String>) -> (res: Result<
        PackManifest,
        LoadingError,
    >)
        ensures
            res == match parsed {
                Ok(data) => Ok::<PackManifest, LoadingError>(PackManifest::V1(data)),
                Err(msg) => Err(LoadingError::MalformedBody(msg)),
            },
    {
        match parsed {
            Ok(data) => Ok(PackManifest::V1(data)),
            Err(msg) => Err(LoadingError::MalformedBody(msg)),
        }
    }
}

/// The JSON of a manifest.
pub open spec fn manifest_json(data: PackManifestDataV1) -> Seq<char> {
    "{\"start_idx\":"@ + decimal(data.start_idx as nat) + ",\"end_idx\":"@ + decimal(
        data.end_idx as nat,
    ) + "}"@
}

/// What a manifest record's data holds: the version and the manifest as JSON, and no key.
pub open spec fn manifest_data(data: PackManifestDataV1) -> (Seq<char>, Seq<char>) {
    (MANIFEST_V1@ + manifest_json(data), Seq::empty())
}

impl TryFrom<&PackManifestDataV1> for EncryptedData {
    type Error = StoringError;

    /// The manifest as the data of its record. It never fails.
    fn try_from(value: &PackManifestDataV1) -> (res: Result<Self, StoringError>)
        ensures
            res matches Ok(stored) && stored@ == manifest_data(*value),
    {
        let mut data: String = MANIFEST_V1.to_owned();
        data.append("{\"start_idx\":");
        push_decimal(&mut data, value.start_idx);
        data.append(",\"end_idx\":");
        push_decimal(&mut data, value.end_idx);
        data.append("}");
        assert(data@ =~= manifest_data(*value).0);
        Ok(EncryptedData { data, content_encryption_key: String::new() })
    }
}

impl TryFromSpecImpl<&PackManifestDataV1> for EncryptedData {
    open spec fn obeys_try_from_spec() -> bool {
        false
    }

    open spec fn try_from_spec(value: &PackManifestDataV1) -> Result<Self, StoringError> {
        arbitrary()
    }
}

impl TryFrom<&PackManifest> for EncryptedData {
    type Error = StoringError;

    /// The manifest as the data of its record. It never fails.
    fn try_from(value: &PackManifest) -> (res: Result<Self, StoringError>)
        ensures
            match *value {
                PackManifest::V1(v1) => res matches Ok(stored) && stored@ == manifest_data(v1),
            },
    {
        match value {
            PackManifest::V1(v1) => EncryptedData::try_from(v1),
        }
    }
}

impl TryFromSpecImpl<&PackManifest> for EncryptedData {
    open spec fn obeys_try_from_spec() -> bool {
        false
    }

    open spec fn try_from_spec(value: &PackManifest) -> Result<Self, StoringError> {
        arbitrary()
    }
}

/// A manifest that was stored under the packfile tag is loaded from the JSON that was stored.
pub proof fn law_stored_manifest_loads(data: PackManifestDataV1)
    ensures
        manifest_body(PACKFILE_TAG@, manifest_data(data).0) == Ok::<Seq<char>, LoadingView>(
            manifest_json(data),
        ),
{
    reveal_strlit("001");
    let stored = manifest_data(data).0;
    assert(stored.take(3) =~= MANIFEST_V1@);
    assert(stored.skip(3) =~= manifest_json(data));
}

/// What loading a manifest from a record comes to, with a reader of JSON for its body: what
/// [`PackManifest::body`] and [`PackManifest::from_body`] give with the reader between them.
pub open spec fn loaded_with(
    tag: Seq<char>,
    data: Seq<char>,
    reader: spec_fn(Seq<char>) -> Result<PackManifestDataV1, Seq<char>>,
) -> Result<PackManifest, LoadingView> {
    match manifest_body(tag, data) {
        Ok(body) => match reader(body) {
            Ok(range) => Ok(PackManifest::V1(range)),
            Err(msg) => Err(LoadingView::MalformedBody(msg)),
        },
        Err(why) => Err(why),
    }
}

/// The reader reads an object with the two numbers of a manifest as that manifest.
pub open spec fn reads_manifests(
    reader: spec_fn(Seq<char>) -> Result<PackManifestDataV1, Seq<char>>,
) -> bool {
    forall|data: PackManifestDataV1| #[trigger]
        reader(manifest_json(data)) == Ok::<PackManifestDataV1, Seq<char>>(data)
}

/// With a reader that reads manifests, a manifest that was stored under the packfile tag is loaded as
/// what it was, whatever its range, even one that ends before it starts. Nothing else of the record
/// plays a part.
pub proof fn law_stored_manifest_loads_back(
    data: PackManifestDataV1,
    reader: spec_fn(Seq<char>) -> Result<PackManifestDataV1, Seq<char>>,
)
    requires
        reads_manifests(reader),
    ensures
        loaded_with(PACKFILE_TAG@, manifest_data(data).0, reader) == Ok::<
            PackManifest,
            LoadingView,
        >(PackManifest::V1(data)),
{
    law_stored_manifest_loads(data);
    assert(reader(manifest_json(data)) == Ok::<PackManifestDataV1, Seq<char>>(data));
}

/// What is stored says which run it is: the manifests of different runs are stored as different data.
pub proof fn law_stored_manifest_names_its_run(a: PackManifestDataV1, b: PackManifestDataV1)
    requires
        manifest_data(a).0 == manifest_data(b).0,
    ensures
        a == b,
{
    reveal_strlit("001");
    reveal_strlit("{\"start_idx\":");
    reveal_strlit(",\"end_idx\":");
    reveal_strlit("}");
    let (open, comma, close) = ("{\"start_idx\":"@, ",\"end_idx\":"@, "}"@);
    let (sa, ea) = (decimal(a.start_idx as nat), decimal(a.end_idx as nat));
    let (sb, eb) = (decimal(b.start_idx as nat), decimal(b.end_idx as nat));
    let (ta, tb) = (comma + (ea + close), comma + (eb + close));
    let head = MANIFEST_V1@ + open;
    assert(manifest_data(a).0 =~= head + (sa + ta));
    assert(manifest_data(b).0 =~= head + (sb + tb));
    assert(sa + ta =~= manifest_data(a).0.skip(head.len() as int));
    assert(sb + tb =~= manifest_data(b).0.skip(head.len() as int));
    lemma_decimal_is_digits(a.start_idx as nat);
    lemma_decimal_is_digits(a.end_idx as nat);
    lemma_decimal_is_digits(b.start_idx as nat);
    lemma_decimal_is_digits(b.end_idx as nat);
    assert(ta[0] == ',' && tb[0] == ',');
    lemma_digits_end(sa, sb, ta, tb);
    assert(ea + close =~= ta.skip(comma.len() as int));
    assert(eb + close =~= tb.skip(comma.len() as int));
    lemma_digits_end(ea, eb, close, close);
    lemma_decimal_injective(a.start_idx as nat, b.start_idx as nat);
    lemma_decimal_injective(a.end_idx as nat, b.end_idx as nat);
}

/// The run of a manifest goes from its first index to its last, both included.
pub proof fn law_run_counts_both_ends(data: &PackManifestDataV1, n: u64)
    requires
        call_ensures(PackManifestDataV1::count, (data,), n),
        data.start_idx <= data.end_idx,
    ensures
        data.start_idx + n == data.end_idx + 1,
{
}

/// A record is a manifest exactly where it has the packfile tag and its data starts with the mark of the
/// first version; its body is all that follows the mark. What is wrong is named in that order.
pub proof fn law_manifest_is_marked(
    value: &Record<EncryptedData>,
    res: Result<String, LoadingError>,
)
    requires
        call_ensures(PackManifest::body, (value,), res),
    ensures
        match res {
            Ok(body) => value.tag@ == "packfile"@ && value.data.data@ == "001"@ + body@,
            Err(LoadingError::WrongTag(tag)) => value.tag@ != "packfile"@ && tag@ == value.tag@,
            Err(LoadingError::UnknownVersion) => value.tag@ == "packfile"@ && !"001"@.is_prefix_of(
                value.data.data@,
            ),
            Err(LoadingError::MalformedBody(_)) => false,
        },
{
    reveal_strlit("001");
    let data = value.data.data@;
    if res is Ok {
        assert(data =~= data.take(3) + data.skip(3));
    }
    if value.tag@ == PACKFILE_TAG@ && "001"@.is_prefix_of(data) {
        assert(data.take(3) =~= "001"@);
    }
}

/// What the body was read as is the manifest, unchanged; where it could not be read, the record is no
/// manifest, for the reason that the reader gave.
pub proof fn law_manifest_is_what_was_read(
    parsed: Result<PackManifestDataV1, String>,
    res: Result<PackManifest, LoadingError>,
)
    requires
        call_ensures(PackManifest::from_body, (parsed,), res),
    ensures
        match (parsed, res) {
            (Ok(data), Ok(PackManifest::V1(range))) => range == data,
            (Err(msg), Err(LoadingError::MalformedBody(said))) => said == msg,
            _ => false,
        },
{
}

/// Storing a manifest never fails. It is written as the mark of the first version and an object of its
/// two numbers, in decimal, and without a key. The digits of the two numbers are returned.
pub proof fn law_manifest_is_written_in_decimal(
    value: &PackManifestDataV1,
    manifest: &PackManifest,
    res: Result<EncryptedData, StoringError>,
) -> (digits: (Seq<char>, Seq<char>))
    requires
        *manifest == PackManifest::V1(*value),
        call_ensures(<EncryptedData as TryFrom<&PackManifestDataV1>>::try_from, (value,), res)
            || call_ensures(<EncryptedData as TryFrom<&PackManifest>>::try_from, (manifest,), res),
    ensures
        res is Ok,
        res->Ok_0.data@ == "001"@ + ("{\"start_idx\":"@ + digits.0 + ",\"end_idx\":"@ + digits.1
            + "}"@),
        res->Ok_0.content_encryption_key@.len() == 0,
        value_of(digits.0) == value.start_idx,
        value_of(digits.1) == value.end_idx,
        value.start_idx > 0 ==> digits.0[0] != '0',
        value.end_idx > 0 ==> digits.1[0] != '0',
        value.start_idx == 0 ==> digits.0 == seq!['0'],
        value.end_idx == 0 ==> digits.1 == seq!['0'],
{
    law_decimal_stands_for_its_number(value.start_idx as nat);
    law_decimal_stands_for_its_number(value.end_idx as nat);
    (decimal(value.start_idx as nat), decimal(value.end_idx as nat))
}

/// What is said of a record that is no manifest, and of a manifest that cannot be stored.
pub proof fn law_manifest_errors_say_why(
    e: &LoadingError,
    text: String,
    f: &StoringError,
    said: String,
)
    requires
        call_ensures(LoadingError::message, (e,), text),
        call_ensures(StoringError::message, (f,), said),
    ensures
        text@ == match *e {
            LoadingError::WrongTag(tag) => "\""@ + tag@ + "\" is not a packfile tag"@,
            LoadingError::UnknownVersion => "failed to find version bytes."@,
            LoadingError::MalformedBody(msg) => "invalid body: "@ + msg@,
        },
        *f matches StoringError::InvalidBody(msg) && said@ == "invalid body: "@ + msg@,
{
}

} // verus!
