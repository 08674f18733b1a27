//! The logic of the chain store: checking that the stored records form an
//! unbroken chain, and turning records into table rows and back.
//! The store itself (an SQLite database and an append-only log) lives
//! with the application.

use vstd::prelude::*;
use crate::hash::{byte_seqs, ChainRecord};

verus! {

/// Whether two byte strings are equal.
pub fn bytes_equal(a: &[u8], b: &[u8]) -> (eq: bool)
    ensures
        eq == (a@ == b@),
{
    if a.len() != b.len() {
        return false;
    }
    let mut i: usize = 0;
    while i < a.len()
        invariant
            a@.len() == b@.len(),
            i <= a@.len(),
            forall|j: int| 0 <= j < i ==> a@[j] == b@[j],
        decreases a@.len() - i,
    {
        if a[i] != b[i] {
            return false;
        }
        i = i + 1;
    }
    assert(a@ =~= b@);
    true
}

/// Whether two lists of byte strings are equal.
pub fn lists_equal(a: &Vec<Vec<u8>>, b: &Vec<Vec<u8>>) -> (eq: bool)
    ensures
        eq == (byte_seqs(a@) == byte_seqs(b@)),
{
    if a.len() != b.len() {
        assert(byte_seqs(a@).len() != byte_seqs(b@).len());
        return false;
    }
    let mut i: usize = 0;
    while i < a.len()
        invariant
            a@.len() == b@.len(),
            i <= a@.len(),
            forall|j: int| 0 <= j < i ==> byte_seqs(a@)[j] == byte_seqs(b@)[j],
        decreases a@.len() - i,
    {
        if !bytes_equal(a[i].as_slice(), b[i].as_slice()) {
            assert(byte_seqs(a@)[i as int] != byte_seqs(b@)[i as int]);
            return false;
        }
        i = i + 1;
    }
    assert(byte_seqs(a@) =~= byte_seqs(b@));
    true
}

/// One stored link: (wavehash, parent wavehash), in the order the records were appended.
pub type Link = (Vec<u8>, Vec<u8>);

/// The views of stored links.
pub open spec fn link_views(rows: Seq<Link>) -> Seq<(Seq<u8>, Seq<u8>)> {
    rows.map_values(|r: Link| (r.0@, r.1@))
}

/// The number of records whose parent is not the wavehash of the record before it.
pub open spec fn chain_breaks(links: Seq<(Seq<u8>, Seq<u8>)>) -> nat
    decreases links.len(),
{
    if links.len() <= 1 {
        0
    } else {
        chain_breaks(links.drop_last()) + if links.last().1 != links[links.len() - 2].0 {
            1nat
        } else {
            0nat
        }
    }
}

/// The wavehash of the last record, if there is one.
pub open spec fn chain_head(links: Seq<(Seq<u8>, Seq<u8>)>) -> Option<Seq<u8>> {
    if links.len() == 0 {
        None
    } else {
        Some(links.last().0)
    }
}

/// Whether every record's parent is the wavehash of the record before it.
pub open spec fn is_continuous(links: Seq<(Seq<u8>, Seq<u8>)>) -> bool {
    forall|i: int| 0 < i < links.len() ==> #[trigger] links[i].1 == links[i - 1].0
}

/// Verifies chain continuity by checking parent_wavehash links.
/// Returns the head wavehash, the number of records and the number of breaks.
pub fn verify_links(rows: &Vec<Link>) -> (r: (Option<Vec<u8>>, u64, u64))
    ensures
        r.1 == rows@.len(),
        r.2 == chain_breaks(link_views(rows@)),
        match r.0 {
            Some(h) => chain_head(link_views(rows@)) == Some(h@),
            None => chain_head(link_views(rows@)) is None,
        },
{
    let ghost links = link_views(rows@);
    let mut count: u64 = 0;
    let mut errors: u64 = 0;
    let mut i: usize = 0;
    while i < rows.len()
        invariant
            links == link_views(rows@),
            i <= rows@.len(),
            count == i,
            errors == chain_breaks(links.subrange(0, i as int)),
            errors <= i,
        decreases rows@.len() - i,
    {
        count = count + 1;
        if i > 0 {
            let broken = !bytes_equal(rows[i].1.as_slice(), rows[i - 1].0.as_slice());
            proof {
                let next = links.subrange(0, i + 1);
                assert(next.drop_last() =~= links.subrange(0, i as int));
                assert(next.last() == links[i as int]);
                assert(next[next.len() - 2] == links[i - 1]);
            }
            if broken {
                errors = errors + 1;
            }
        } else {
            assert(links.subrange(0, 1).len() == 1);
        }
        i = i + 1;
    }
    assert(links.subrange(0, i as int) =~= links);
    if rows.len() == 0 {
        (None, count, errors)
    } else {
        let last = rows.len() - 1;
        let head = rows[last].0.clone();
        proof {
            assert(head@ == rows@[last as int].0@);
        }
        (Some(head), count, errors)
    }
}

/// A chain has no breaks exactly when every record's parent is the wavehash
/// of the record before it.
pub proof fn lemma_no_breaks_iff_continuous(links: Seq<(Seq<u8>, Seq<u8>)>)
    ensures
        chain_breaks(links) == 0 <==> is_continuous(links),
    decreases links.len(),
{
    if links.len() > 1 {
        let prefix = links.drop_last();
        lemma_no_breaks_iff_continuous(prefix);
        if is_continuous(links) {
            assert forall|i: int| 0 < i < prefix.len() implies #[trigger] prefix[i].1 == prefix[i - 1].0 by {
                assert(links[i].1 == links[i - 1].0);
            }
            assert(links[links.len() - 1].1 == links[links.len() - 2].0);
        }
        if chain_breaks(links) == 0 {
            assert forall|i: int| 0 < i < links.len() implies #[trigger] links[i].1 == links[i - 1].0 by {
                if i < links.len() - 1 {
                    assert(prefix[i].1 == prefix[i - 1].0);
                }
            }
        }
    }
}

/// Appending a record whose parent is the current head (any parent, on an
/// empty chain) adds no break, and the new record becomes the head.
pub proof fn lemma_linked_append(links: Seq<(Seq<u8>, Seq<u8>)>, wavehash: Seq<u8>, parent: Seq<u8>)
    requires
        links.len() > 0 ==> parent == links.last().0,
    ensures
        chain_breaks(links.push((wavehash, parent))) == chain_breaks(links),
        chain_head(links.push((wavehash, parent))) == Some(wavehash),
{
    let longer = links.push((wavehash, parent));
    assert(longer.drop_last() =~= links);
    if links.len() > 0 {
        assert(longer[longer.len() - 2] == links.last());
    }
}

/// Appending a record whose parent is not the current head of a non-empty
/// chain adds exactly one break.
pub proof fn lemma_unlinked_append(links: Seq<(Seq<u8>, Seq<u8>)>, wavehash: Seq<u8>, parent: Seq<u8>)
    requires
        links.len() > 0,
        parent != links.last().0,
    ensures
        chain_breaks(links.push((wavehash, parent))) == chain_breaks(links) + 1,
{
    let longer = links.push((wavehash, parent));
    assert(longer.drop_last() =~= links);
    assert(longer[longer.len() - 2] == links.last());
}

/// What `serde_json` writes for a list of byte lists, if it succeeds.
pub uninterp spec fn json_of_byte_lists(lists: Seq<Seq<u8>>) -> Option<Seq<char>>;

/// What `serde_json` reads from a text as a list of byte lists, if it succeeds.
pub uninterp spec fn byte_lists_of_json(text: Seq<char>) -> Option<Seq<Seq<u8>>>;

#[verifier::external_type_specification]
#[verifier::external_body]
pub struct ExJsonError(serde_json::Error);

/// `serde_json::to_string` on a list of byte lists. Trusted: on success the
/// text is the one `json_of_byte_lists` names for the lists, and it fails
/// exactly where that name gives nothing; and the text it writes reads back
/// (`serde_json::from_str`) as the same lists, each byte written as a JSON
/// number and each list as a JSON array.
#[verifier::external_body]
fn byte_lists_to_json(lists: &Vec<Vec<u8>>) -> (r: Result<String, serde_json::Error>)
    ensures
        match r {
            Ok(text) => json_of_byte_lists(byte_seqs(lists@)) == Some(text@)
                && byte_lists_of_json(text@) == Some(byte_seqs(lists@)),
            Err(_) => json_of_byte_lists(byte_seqs(lists@)) is None,
        },
{
    serde_json::to_string(lists)
}

/// `serde_json::from_str` into a list of byte lists. Trusted: on success the
/// lists are the ones `byte_lists_of_json` names for the text, and it fails
/// exactly where that name gives nothing.
#[verifier::external_body]
fn byte_lists_from_json(text: &str) -> (r: Result<Vec<Vec<u8>>, serde_json::Error>)
    ensures
        match r {
            Ok(lists) => byte_lists_of_json(text@) == Some(byte_seqs(lists@)),
            Err(_) => byte_lists_of_json(text@) is None,
        },
{
    serde_json::from_str(text)
}

/// Why a record could not be turned into a row or back.
#[derive(Debug)]
pub enum ChainError {
    /// The media hashes could not be written to or read from JSON.
    Json(serde_json::Error),
}

/// A record as the `records` table stores it.
pub struct RecordRow {
    pub instance_id: String,
    pub day: i64,
    pub tick: i64,
    pub h0: Vec<u8>,
    pub h1: Vec<u8>,
    pub wavehash: Vec<u8>,
    pub parent_wavehash: Vec<u8>,
    /// The media hashes, as JSON.
    pub media_hashes: String,
    pub xml_hash: Vec<u8>,
    pub timestamp: i64,
    /// 1 where a conflict was detected, else 0.
    pub conflict_detected: i32,
    pub previous_hash: Option<Vec<u8>>,
}

/// The row that stores a record: every column holds the field of the same
/// name, the media hashes as their JSON text, the conflict flag as 0 or 1.
pub open spec fn row_matches_record(row: RecordRow, rec: ChainRecord, media_json: Seq<char>) -> bool {
    &&& row.instance_id@ == rec.instance_id@
    &&& row.day == rec.day
    &&& row.tick == rec.tick
    &&& row.h0@ == rec.h0@
    &&& row.h1@ == rec.h1@
    &&& row.wavehash@ == rec.wavehash@
    &&& row.parent_wavehash@ == rec.parent_wavehash@
    &&& row.media_hashes@ == media_json
    &&& row.xml_hash@ == rec.xml_hash@
    &&& row.timestamp == rec.timestamp
    &&& row.conflict_detected == (if rec.conflict_detected { 1i32 } else { 0i32 })
    &&& row.previous_hash == rec.previous_hash
}

/// `row` stores `rec`: every column holds its field, and the media-hash
/// JSON is the text `serde_json` writes for them, which reads back as them.
pub open spec fn stores(row: RecordRow, rec: ChainRecord) -> bool {
    &&& json_of_byte_lists(byte_seqs(rec.media_hashes@)) == Some(row.media_hashes@)
    &&& byte_lists_of_json(row.media_hashes@) == Some(byte_seqs(rec.media_hashes@))
    &&& row_matches_record(row, rec, row.media_hashes@)
}

/// `rec` is what `row` reads back as: every field from its column, the media
/// hashes parsed from the JSON column, any non-zero flag a conflict.
pub open spec fn reads_back(row: RecordRow, rec: ChainRecord) -> bool {
    &&& byte_lists_of_json(row.media_hashes@) == Some(byte_seqs(rec.media_hashes@))
    &&& rec.instance_id@ == row.instance_id@
    &&& rec.day == row.day
    &&& rec.tick == row.tick
    &&& rec.h0@ == row.h0@
    &&& rec.h1@ == row.h1@
    &&& rec.wavehash@ == row.wavehash@
    &&& rec.parent_wavehash@ == row.parent_wavehash@
    &&& rec.xml_hash@ == row.xml_hash@
    &&& rec.timestamp == row.timestamp
    &&& rec.conflict_detected == (row.conflict_detected != 0)
    &&& rec.previous_hash == row.previous_hash
}

/// Two records hold the same values in every field.
pub open spec fn same_record(a: ChainRecord, b: ChainRecord) -> bool {
    &&& a.instance_id@ == b.instance_id@
    &&& a.day == b.day
    &&& a.tick == b.tick
    &&& a.h0@ == b.h0@
    &&& a.h1@ == b.h1@
    &&& a.wavehash@ == b.wavehash@
    &&& a.parent_wavehash@ == b.parent_wavehash@
    &&& byte_seqs(a.media_hashes@) == byte_seqs(b.media_hashes@)
    &&& a.xml_hash@ == b.xml_hash@
    &&& a.timestamp == b.timestamp
    &&& a.conflict_detected == b.conflict_detected
    &&& a.previous_hash == b.previous_hash
}

/// A stored record reads back unchanged: the row that `into_row` makes of a
/// record, read back by `from_row`, gives the same record in every field,
/// media hashes, conflict flag and previous hash included.
pub proof fn lemma_stored_record_reads_back(rec: ChainRecord, row: RecordRow, back: ChainRecord)
    requires
        stores(row, rec),
        reads_back(row, back),
    ensures
        same_record(back, rec),
{
}

/// Each column of a stored row holds the record field of the same name;
/// the conflict column holds 1 for a conflict and 0 otherwise.
pub proof fn lemma_stored_columns(row: RecordRow, rec: ChainRecord)
    requires
        stores(row, rec),
    ensures
        row.instance_id@ == rec.instance_id@,
        row.day == rec.day,
        row.tick == rec.tick,
        row.h0@ == rec.h0@,
        row.h1@ == rec.h1@,
        row.wavehash@ == rec.wavehash@,
        row.parent_wavehash@ == rec.parent_wavehash@,
        row.xml_hash@ == rec.xml_hash@,
        row.timestamp == rec.timestamp,
        rec.conflict_detected ==> row.conflict_detected == 1,
        !rec.conflict_detected ==> row.conflict_detected == 0,
        row.previous_hash == rec.previous_hash,
        byte_lists_of_json(row.media_hashes@) == Some(byte_seqs(rec.media_hashes@)),
{
}

/// Each field of a record read back from a row comes from the column of the
/// same name; any non-zero conflict column reads as a conflict.
pub proof fn lemma_read_back_fields(row: RecordRow, rec: ChainRecord)
    requires
        reads_back(row, rec),
    ensures
        rec.instance_id@ == row.instance_id@,
        rec.day == row.day,
        rec.tick == row.tick,
        rec.h0@ == row.h0@,
        rec.h1@ == row.h1@,
        rec.wavehash@ == row.wavehash@,
        rec.parent_wavehash@ == row.parent_wavehash@,
        rec.xml_hash@ == row.xml_hash@,
        rec.timestamp == row.timestamp,
        rec.conflict_detected <==> row.conflict_detected != 0,
        rec.previous_hash == row.previous_hash,
{
}

impl ChainRecord {
    /// The row that stores this record.
    pub fn into_row(self) -> (r: Result<RecordRow, ChainError>)
        ensures
            match r {
                Ok(row) => stores(row, self),
                Err(_) => json_of_byte_lists(byte_seqs(self.media_hashes@)) is None,
            },
            r matches Ok(row) ==> row.wavehash@ == self.wavehash@ && row.parent_wavehash@ == self.parent_wavehash@
                && row.h0@ == self.h0@ && row.h1@ == self.h1@ && row.xml_hash@ == self.xml_hash@
                && row.instance_id@ == self.instance_id@,
    {
        let media_hashes = match byte_lists_to_json(&self.media_hashes) {
            Ok(text) => text,
            Err(e) => return Err(ChainError::Json(e)),
        };
        let conflict_detected: i32 = if self.conflict_detected { 1 } else { 0 };
        Ok(RecordRow {
            instance_id: self.instance_id,
            day: self.day,
            tick: self.tick,
            h0: self.h0,
            h1: self.h1,
            wavehash: self.wavehash,
            parent_wavehash: self.parent_wavehash,
            media_hashes,
            xml_hash: self.xml_hash,
            timestamp: self.timestamp,
            conflict_detected,
            previous_hash: self.previous_hash,
        })
    }

    /// The record that a row stores: the media hashes are read back from
    /// JSON, and any non-zero conflict flag means a conflict.
    pub fn from_row(row: RecordRow) -> (r: Result<ChainRecord, ChainError>)
        ensures
            r matches Ok(rec) ==> rec.wavehash@ == row.wavehash@ && rec.parent_wavehash@ == row.parent_wavehash@
                && rec.h0@ == row.h0@ && rec.h1@ == row.h1@ && rec.xml_hash@ == row.xml_hash@
                && rec.instance_id@ == row.instance_id@,
            match r {
                Ok(rec) => reads_back(row, rec),
                Err(_) => byte_lists_of_json(row.media_hashes@) is None,
            },
    {
        let media_hashes = match byte_lists_from_json(row.media_hashes.as_str()) {
            Ok(lists) => lists,
            Err(e) => return Err(ChainError::Json(e)),
        };
        Ok(ChainRecord {
            instance_id: row.instance_id,
            day: row.day,
            tick: row.tick,
            h0: row.h0,
            h1: row.h1,
            wavehash: row.wavehash,
            parent_wavehash: row.parent_wavehash,
            media_hashes,
            xml_hash: row.xml_hash,
            timestamp: row.timestamp,
            conflict_detected: row.conflict_detected != 0,
            previous_hash: row.previous_hash,
        })
    }
}

} // verus!
