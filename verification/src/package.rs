//! The checks and the metadata of a submission package: a ZIP archive of
//! the cached submission plus a JSON description of its chain record.
//! Writing the archive and the JSON file belongs to the application.

use vstd::prelude::*;
use crate::hash::{byte_seqs, ChainRecord, HASH_LEN};
use crate::chain::{bytes_equal, lists_equal};

verus! {

/// Why a package could not be generated.
#[derive(Debug, Clone, Copy, PartialEq, Eq, Structural)]
pub enum PackageError {
    MissingCacheDir,
    MissingSubmissionXml,
    XmlHashLength,
    XmlHashMismatch,
    MediaHashLength,
    MediaHashesMismatch,
}

impl PackageError {
    /// The message that describes the error.
    pub fn message(&self) -> (m: String)
        ensures
            m@ == package_error_message(*self),
    {
        match self {
            PackageError::MissingCacheDir => "cache_dir required for package generation".to_owned(),
            PackageError::MissingSubmissionXml => "submission.xml missing in cache".to_owned(),
            PackageError::XmlHashLength => "xml_hash has wrong length".to_owned(),
            PackageError::XmlHashMismatch => "xml_hash mismatch".to_owned(),
            PackageError::MediaHashLength => "media hash has wrong length".to_owned(),
            PackageError::MediaHashesMismatch => "media_hashes mismatch".to_owned(),
        }
    }
}

/// The message of each package error.
pub open spec fn package_error_message(e: PackageError) -> Seq<char> {
    match e {
        PackageError::MissingCacheDir => "cache_dir required for package generation"@,
        PackageError::MissingSubmissionXml => "submission.xml missing in cache"@,
        PackageError::XmlHashLength => "xml_hash has wrong length"@,
        PackageError::XmlHashMismatch => "xml_hash mismatch"@,
        PackageError::MediaHashLength => "media hash has wrong length"@,
        PackageError::MediaHashesMismatch => "media_hashes mismatch"@,
    }
}

/// Checks the hash of the cached `submission.xml` against the record.
pub fn check_xml_hash(record: &ChainRecord, xml_hash: &[u8]) -> (r: Result<(), PackageError>)
    ensures
        xml_hash@.len() != HASH_LEN ==> r == Err::<(), PackageError>(PackageError::XmlHashLength),
        xml_hash@.len() == HASH_LEN && xml_hash@ != record.xml_hash@ ==> r == Err::<(), PackageError>(PackageError::XmlHashMismatch),
        xml_hash@.len() == HASH_LEN && xml_hash@ == record.xml_hash@ ==> r is Ok,
{
    if xml_hash.len() != HASH_LEN {
        return Err(PackageError::XmlHashLength);
    }
    if !bytes_equal(xml_hash, record.xml_hash.as_slice()) {
        return Err(PackageError::XmlHashMismatch);
    }
    Ok(())
}

/// Checks the length of one media file's hash.
pub fn check_media_hash(hash: &[u8]) -> (r: Result<(), PackageError>)
    ensures
        hash@.len() != HASH_LEN ==> r == Err::<(), PackageError>(PackageError::MediaHashLength),
        hash@.len() == HASH_LEN ==> r is Ok,
{
    if hash.len() != HASH_LEN {
        Err(PackageError::MediaHashLength)
    } else {
        Ok(())
    }
}

/// Checks the hashes of the cached media files, in package order, against the record.
pub fn check_media_hashes(record: &ChainRecord, media_hashes: &Vec<Vec<u8>>) -> (r: Result<(), PackageError>)
    ensures
        byte_seqs(media_hashes@) == byte_seqs(record.media_hashes@) ==> r is Ok,
        byte_seqs(media_hashes@) != byte_seqs(record.media_hashes@) ==> r == Err::<(), PackageError>(PackageError::MediaHashesMismatch),
{
    if !lists_equal(media_hashes, &record.media_hashes) {
        return Err(PackageError::MediaHashesMismatch);
    }
    Ok(())
}

/// The lower-case hexadecimal digit of a value below 16.
pub open spec fn hex_digit(n: int) -> char {
    if n < 10 {
        (48 + n) as char
    } else {
        (87 + n) as char
    }
}

/// Lower-case hexadecimal text of bytes, two digits per byte, high nibble first.
pub open spec fn hex_lower(data: Seq<u8>) -> Seq<char> {
    Seq::new(
        2 * data.len(),
        |i: int| if i % 2 == 0 { hex_digit((data[i / 2] / 16) as int) } else { hex_digit((data[i / 2] % 16) as int) },
    )
}

/// `hex::encode`. Trusted: as its documentation and source show, the result
/// is the lower-case hexadecimal text of the bytes, high nibble first.
#[verifier::external_body]
fn hex_encode(data: &[u8]) -> (text: String)
    ensures
        text@ == hex_lower(data@),
{
    hex::encode(data)
}

/// The description of a package, as written next to its archive.
pub struct PackageMetadata {
    pub instance_id: String,
    pub day: i64,
    pub tick: i64,
    pub h0: String,
    pub h1: String,
    pub wavehash: String,
    pub parent_wavehash: String,
    pub media_hashes: Vec<String>,
    pub xml_hash: String,
    pub timestamp: i64,
    pub conflict_detected: bool,
}

impl PackageMetadata {
    /// Describes a record: its hashes in lower-case hexadecimal, the rest as it is.
    pub fn describe(instance_id: &str, record: &ChainRecord) -> (m: PackageMetadata)
        ensures
            m.instance_id@ == instance_id@,
            m.day == record.day,
            m.tick == record.tick,
            m.h0@ == hex_lower(record.h0@),
            m.h1@ == hex_lower(record.h1@),
            m.wavehash@ == hex_lower(record.wavehash@),
            m.parent_wavehash@ == hex_lower(record.parent_wavehash@),
            m.media_hashes@.len() == record.media_hashes@.len(),
            forall|i: int| 0 <= i < m.media_hashes@.len() ==> #[trigger] m.media_hashes@[i]@ == hex_lower(record.media_hashes@[i]@),
            m.xml_hash@ == hex_lower(record.xml_hash@),
            m.timestamp == record.timestamp,
            m.conflict_detected == record.conflict_detected,
    {
        let mut media_hashes: Vec<String> = Vec::new();
        let mut i: usize = 0;
        while i < record.media_hashes.len()
            invariant
                i <= record.media_hashes@.len(),
                media_hashes@.len() == i,
                forall|j: int| 0 <= j < i ==> #[trigger] media_hashes@[j]@ == hex_lower(record.media_hashes@[j]@),
            decreases record.media_hashes@.len() - i,
        {
            media_hashes.push(hex_encode(record.media_hashes[i].as_slice()));
            i = i + 1;
        }
        PackageMetadata {
            instance_id: instance_id.to_owned(),
            day: record.day,
            tick: record.tick,
            h0: hex_encode(record.h0.as_slice()),
            h1: hex_encode(record.h1.as_slice()),
            wavehash: hex_encode(record.wavehash.as_slice()),
            parent_wavehash: hex_encode(record.parent_wavehash.as_slice()),
            media_hashes,
            xml_hash: hex_encode(record.xml_hash.as_slice()),
            timestamp: record.timestamp,
            conflict_detected: record.conflict_detected,
        }
    }
}

/// A value in a package's JSON description.
pub enum JsonValue {
    Text(String),
    Integer(i64),
    Boolean(bool),
    TextList(Vec<String>),
}

/// The value of a JSON description entry, as plain values.
pub enum JsonValueView {
    Text(Seq<char>),
    Integer(i64),
    Boolean(bool),
    TextList(Seq<Seq<char>>),
}

impl View for JsonValue {
    type V = JsonValueView;

    open spec fn view(&self) -> JsonValueView {
        match self {
            JsonValue::Text(t) => JsonValueView::Text(t@),
            JsonValue::Integer(i) => JsonValueView::Integer(*i),
            JsonValue::Boolean(b) => JsonValueView::Boolean(*b),
            JsonValue::TextList(l) => JsonValueView::TextList(l@.map_values(|t: String| t@)),
        }
    }
}

/// The entries of the JSON description of a package, key by key.
pub open spec fn description_entries(m: PackageMetadata) -> Seq<(Seq<char>, JsonValueView)> {
    seq![
        ("instance_id"@, JsonValueView::Text(m.instance_id@)),
        ("day"@, JsonValueView::Integer(m.day)),
        ("tick"@, JsonValueView::Integer(m.tick)),
        ("h0"@, JsonValueView::Text(m.h0@)),
        ("h1"@, JsonValueView::Text(m.h1@)),
        ("wavehash"@, JsonValueView::Text(m.wavehash@)),
        ("parent_wavehash"@, JsonValueView::Text(m.parent_wavehash@)),
        ("media_hashes"@, JsonValueView::TextList(m.media_hashes@.map_values(|t: String| t@))),
        ("xml_hash"@, JsonValueView::Text(m.xml_hash@)),
        ("timestamp"@, JsonValueView::Integer(m.timestamp)),
        ("conflict_detected"@, JsonValueView::Boolean(m.conflict_detected)),
    ]
}

/// The views of JSON description entries.
pub open spec fn entry_views(entries: Seq<(String, JsonValue)>) -> Seq<(Seq<char>, JsonValueView)> {
    entries.map_values(|e: (String, JsonValue)| (e.0@, e.1@))
}

/// `m` describes `record` for `instance_id`, as `PackageMetadata::describe` makes it.
pub open spec fn describes(m: PackageMetadata, instance_id: Seq<char>, record: ChainRecord) -> bool {
    &&& m.instance_id@ == instance_id
    &&& m.day == record.day
    &&& m.tick == record.tick
    &&& m.h0@ == hex_lower(record.h0@)
    &&& m.h1@ == hex_lower(record.h1@)
    &&& m.wavehash@ == hex_lower(record.wavehash@)
    &&& m.parent_wavehash@ == hex_lower(record.parent_wavehash@)
    &&& m.media_hashes@.len() == record.media_hashes@.len()
    &&& forall|i: int| 0 <= i < m.media_hashes@.len() ==> #[trigger] m.media_hashes@[i]@ == hex_lower(record.media_hashes@[i]@)
    &&& m.xml_hash@ == hex_lower(record.xml_hash@)
    &&& m.timestamp == record.timestamp
    &&& m.conflict_detected == record.conflict_detected
}

/// In the JSON description of a record, the value under each key is the
/// record's field of that name: the instance id and the numbers as they are,
/// every hash in lower-case hexadecimal, the media hashes in their order.
/// Every key appears once.
pub proof fn lemma_description_by_key(m: PackageMetadata, instance_id: Seq<char>, record: ChainRecord)
    requires
        describes(m, instance_id, record),
    ensures
        ({
            let e = description_entries(m);
            &&& e.len() == 11
            &&& forall|i: int, j: int| 0 <= i < j < e.len() ==> e[i].0 != e[j].0
            &&& forall|i: int| 0 <= i < e.len() ==> {
                &&& e[i].0 == "instance_id"@ ==> e[i].1 == JsonValueView::Text(instance_id)
                &&& e[i].0 == "day"@ ==> e[i].1 == JsonValueView::Integer(record.day)
                &&& e[i].0 == "tick"@ ==> e[i].1 == JsonValueView::Integer(record.tick)
                &&& e[i].0 == "h0"@ ==> e[i].1 == JsonValueView::Text(hex_lower(record.h0@))
                &&& e[i].0 == "h1"@ ==> e[i].1 == JsonValueView::Text(hex_lower(record.h1@))
                &&& e[i].0 == "wavehash"@ ==> e[i].1 == JsonValueView::Text(hex_lower(record.wavehash@))
                &&& e[i].0 == "parent_wavehash"@ ==> e[i].1 == JsonValueView::Text(hex_lower(record.parent_wavehash@))
                &&& e[i].0 == "media_hashes"@ ==> e[i].1 == JsonValueView::TextList(
                    record.media_hashes@.map_values(|h: Vec<u8>| hex_lower(h@)),
                )
                &&& e[i].0 == "xml_hash"@ ==> e[i].1 == JsonValueView::Text(hex_lower(record.xml_hash@))
                &&& e[i].0 == "timestamp"@ ==> e[i].1 == JsonValueView::Integer(record.timestamp)
                &&& e[i].0 == "conflict_detected"@ ==> e[i].1 == JsonValueView::Boolean(record.conflict_detected)
            }
            &&& exists|i: int| 0 <= i < e.len() && e[i].0 == "instance_id"@
            &&& exists|i: int| 0 <= i < e.len() && e[i].0 == "day"@
            &&& exists|i: int| 0 <= i < e.len() && e[i].0 == "tick"@
            &&& exists|i: int| 0 <= i < e.len() && e[i].0 == "h0"@
            &&& exists|i: int| 0 <= i < e.len() && e[i].0 == "h1"@
            &&& exists|i: int| 0 <= i < e.len() && e[i].0 == "wavehash"@
            &&& exists|i: int| 0 <= i < e.len() && e[i].0 == "parent_wavehash"@
            &&& exists|i: int| 0 <= i < e.len() && e[i].0 == "media_hashes"@
            &&& exists|i: int| 0 <= i < e.len() && e[i].0 == "xml_hash"@
            &&& exists|i: int| 0 <= i < e.len() && e[i].0 == "timestamp"@
            &&& exists|i: int| 0 <= i < e.len() && e[i].0 == "conflict_detected"@
        }),
{
    reveal_strlit("instance_id");
    reveal_strlit("day");
    reveal_strlit("tick");
    reveal_strlit("h0");
    reveal_strlit("h1");
    reveal_strlit("wavehash");
    reveal_strlit("parent_wavehash");
    reveal_strlit("media_hashes");
    reveal_strlit("xml_hash");
    reveal_strlit("timestamp");
    reveal_strlit("conflict_detected");
    let e = description_entries(m);
    assert(m.media_hashes@.map_values(|t: String| t@) =~= record.media_hashes@.map_values(|h: Vec<u8>| hex_lower(h@)));
    assert(e[0].0 == "instance_id"@);
    assert(e[1].0 == "day"@);
    assert(e[2].0 == "tick"@);
    assert(e[3].0 == "h0"@);
    assert(e[4].0 == "h1"@);
    assert(e[5].0 == "wavehash"@);
    assert(e[6].0 == "parent_wavehash"@);
    assert(e[7].0 == "media_hashes"@);
    assert(e[8].0 == "xml_hash"@);
    assert(e[9].0 == "timestamp"@);
    assert(e[10].0 == "conflict_detected"@);
    assert forall|i: int, j: int| 0 <= i < j < e.len() implies e[i].0 != e[j].0 by {
        assert(e[i].0.len() != e[j].0.len() || e[i].0[0] != e[j].0[0] || e[i].0[1] != e[j].0[1]);
    }
}

impl PackageMetadata {
    /// The JSON description of the package: one entry per key, in this order
    /// (the written object orders its keys itself).
    pub fn into_entries(self) -> (entries: Vec<(String, JsonValue)>)
        ensures
            entry_views(entries@) == description_entries(self),
    {
        let ghost m = self;
        let mut entries: Vec<(String, JsonValue)> = Vec::new();
        entries.push(("instance_id".to_owned(), JsonValue::Text(self.instance_id)));
        entries.push(("day".to_owned(), JsonValue::Integer(self.day)));
        entries.push(("tick".to_owned(), JsonValue::Integer(self.tick)));
        entries.push(("h0".to_owned(), JsonValue::Text(self.h0)));
        entries.push(("h1".to_owned(), JsonValue::Text(self.h1)));
        entries.push(("wavehash".to_owned(), JsonValue::Text(self.wavehash)));
        entries.push(("parent_wavehash".to_owned(), JsonValue::Text(self.parent_wavehash)));
        entries.push(("media_hashes".to_owned(), JsonValue::TextList(self.media_hashes)));
        entries.push(("xml_hash".to_owned(), JsonValue::Text(self.xml_hash)));
        entries.push(("timestamp".to_owned(), JsonValue::Integer(self.timestamp)));
        entries.push(("conflict_detected".to_owned(), JsonValue::Boolean(self.conflict_detected)));
        assert(entry_views(entries@) =~= description_entries(m));
        entries
    }
}

/// The file names of a package: the archive, its description, and the
/// temporary names under which both are written first.
pub struct PackageNames {
    pub zip: String,
    pub json: String,
    pub temp_zip: String,
    pub temp_json: String,
}

/// `instance_id` followed by `suffix`.
fn suffixed(instance_id: &str, suffix: &str) -> (s: String)
    ensures
        s@ == instance_id@ + suffix@,
{
    let mut s = instance_id.to_owned();
    s.append(suffix);
    s
}

impl PackageNames {
    /// `{id}.zip`, `{id}.json`, `{id}.tmp.zip` and `{id}.tmp.json`.
    pub fn for_instance(instance_id: &str) -> (n: PackageNames)
        ensures
            n.zip@ == instance_id@ + ".zip"@,
            n.json@ == instance_id@ + ".json"@,
            n.temp_zip@ == instance_id@ + ".tmp.zip"@,
            n.temp_json@ == instance_id@ + ".tmp.json"@,
    {
        PackageNames {
            zip: suffixed(instance_id, ".zip"),
            json: suffixed(instance_id, ".json"),
            temp_zip: suffixed(instance_id, ".tmp.zip"),
            temp_json: suffixed(instance_id, ".tmp.json"),
        }
    }
}

} // verus!
