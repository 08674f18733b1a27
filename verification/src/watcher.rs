//! The decisions the instance watcher makes about a submission: which files
//! are its media and in what order, whether it is new, a duplicate or a
//! conflict, what record seals it, and whether its directory is stable.
//! Reading directories, timing and storing belong to the application.

use vstd::prelude::*;
use crate::hash::{
    byte_seqs, compute_h0, compute_h1, compute_wavehash, h0_message, h1_message, sha256_of,
    wavehash_message, ChainRecord, HASH_LEN,
};
use crate::chain::{bytes_equal, lists_equal};
use crate::order::{bytes_lt, lemma_lex_asymmetric, lemma_lex_irreflexive, lemma_lex_total, lemma_lex_transitive, lex_lt};
use crate::chain::{chain_breaks, chain_head, lemma_linked_append};

verus! {

/// Whether a file name is reserved for the submission itself rather than its media.
pub open spec fn is_reserved(name: Seq<char>) -> bool {
    name == "submission.xml"@ || name == "metadata.json"@
}

/// Whether a file name is `submission.xml` or `metadata.json`.
pub fn is_reserved_name(name: &str) -> (b: bool)
    ensures
        b == is_reserved(name@),
{
    let submission = "submission.xml".to_owned();
    let metadata = "metadata.json".to_owned();
    let owned = name.to_owned();
    owned == submission || owned == metadata
}

/// Whether the file at index `i` comes before the one at index `j`: by sort
/// key, and by position among files with equal keys.
pub open spec fn media_before(keys: Seq<Seq<u8>>, i: int, j: int) -> bool {
    lex_lt(keys[i], keys[j]) || (keys[i] == keys[j] && i < j)
}

/// Whether `order` lists exactly the files that are not reserved, sorted by
/// key, files with equal keys in the order they were found.
pub open spec fn is_media_order(names: Seq<Seq<char>>, keys: Seq<Seq<u8>>, order: Seq<usize>) -> bool {
    &&& forall|p: int| 0 <= p < order.len() ==> #[trigger] order[p] < names.len() && !is_reserved(names[order[p] as int])
    &&& forall|i: int| 0 <= i < names.len() && !is_reserved(#[trigger] names[i]) ==> order.contains(i as usize)
    &&& forall|p: int, q: int| 0 <= p < q < order.len() ==> media_before(keys, #[trigger] order[p] as int, #[trigger] order[q] as int)
}

/// The views of a list of strings.
pub open spec fn string_views(v: Seq<String>) -> Seq<Seq<char>> {
    v.map_values(|s: String| s@)
}

/// The media files of a submission, in the order in which they are hashed
/// and packaged. `names[i]` is the file name of the `i`-th file found, and
/// `keys[i]` the bytes of its path relative to the submission directory.
/// Returns the indices of the files other than `submission.xml` and
/// `metadata.json`, sorted by key (a stable sort).
pub fn order_media(names: &Vec<String>, keys: &Vec<Vec<u8>>) -> (order: Vec<usize>)
    requires
        names@.len() == keys@.len(),
    ensures
        is_media_order(string_views(names@), byte_seqs(keys@), order@),
{
    let ghost nv = string_views(names@);
    let ghost kv = byte_seqs(keys@);
    let mut order: Vec<usize> = Vec::new();
    let mut i: usize = 0;
    while i < names.len()
        invariant
            nv == string_views(names@),
            kv == byte_seqs(keys@),
            names@.len() == keys@.len(),
            i <= names@.len(),
            forall|p: int| 0 <= p < order@.len() ==> #[trigger] order@[p] < i && !is_reserved(nv[order@[p] as int]),
            forall|j: int| 0 <= j < i && !is_reserved(#[trigger] nv[j]) ==> order@.contains(j as usize),
            forall|p: int, q: int| 0 <= p < q < order@.len() ==> media_before(kv, #[trigger] order@[p] as int, #[trigger] order@[q] as int),
        decreases names@.len() - i,
    {
        assert(nv[i as int] == names@[i as int]@);
        if !is_reserved_name(names[i].as_str()) {
            let mut pos: usize = 0;
            while pos < order.len() && !bytes_lt(keys[i].as_slice(), keys[order[pos]].as_slice())
                invariant
                    kv == byte_seqs(keys@),
                    names@.len() == keys@.len(),
                    i < names@.len(),
                    pos <= order@.len(),
                    forall|p: int| 0 <= p < order@.len() ==> #[trigger] order@[p] < i,
                    forall|q: int| 0 <= q < pos ==> !lex_lt(kv[i as int], kv[#[trigger] order@[q] as int]),
                decreases order@.len() - pos,
            {
                pos = pos + 1;
            }
            let ghost before = order@;
            proof {
                assert forall|q: int| pos <= q < before.len() implies lex_lt(kv[i as int], kv[#[trigger] before[q] as int]) by {
                    if q > pos {
                        assert(media_before(kv, before[pos as int] as int, before[q] as int));
                        if lex_lt(kv[before[pos as int] as int], kv[before[q] as int]) {
                            lemma_lex_transitive(kv[i as int], kv[before[pos as int] as int], kv[before[q] as int]);
                        }
                    }
                }
                assert forall|q: int| 0 <= q < pos implies media_before(kv, #[trigger] before[q] as int, i as int) by {
                    lemma_lex_total(kv[i as int], kv[before[q] as int]);
                }
            }
            order.insert(pos, i);
            proof {
                assert forall|p: int, q: int| 0 <= p < q < order@.len() implies media_before(kv, #[trigger] order@[p] as int, #[trigger] order@[q] as int) by {
                    if p < pos && q < pos {
                        assert(order@[p] == before[p] && order@[q] == before[q]);
                    } else if p < pos && q == pos {
                        assert(order@[p] == before[p]);
                    } else if p < pos {
                        assert(order@[p] == before[p] && order@[q] == before[q - 1]);
                    } else if p == pos {
                        assert(order@[q] == before[q - 1]);
                    } else {
                        assert(order@[p] == before[p - 1] && order@[q] == before[q - 1]);
                    }
                }
                assert forall|j: int| 0 <= j < i + 1 && !is_reserved(#[trigger] nv[j]) implies order@.contains(j as usize) by {
                    if j == i {
                        assert(order@[pos as int] == i);
                    } else {
                        let k = choose|k: int| 0 <= k < before.len() && before[k] == j as usize;
                        if k < pos {
                            assert(order@[k] == before[k]);
                        } else {
                            assert(order@[k + 1] == before[k]);
                        }
                    }
                }
                assert forall|p: int| 0 <= p < order@.len() implies #[trigger] order@[p] < i + 1 && !is_reserved(nv[order@[p] as int]) by {
                    if p < pos {
                        assert(order@[p] == before[p]);
                    } else if p > pos {
                        assert(order@[p] == before[p - 1]);
                    }
                }
            }
        }
        i = i + 1;
    }
    order
}

/// How a submission relates to what the chain already holds for its instance id.
#[derive(Debug)]
pub enum Admission {
    /// Nothing is recorded for the instance id yet.
    New,
    /// The latest record for the instance id has the same XML and media hashes.
    Duplicate,
    /// The latest record for the instance id differs; it carries that record's wavehash.
    Conflict(Vec<u8>),
}

/// Whether a record holds exactly the given XML hash and media hashes.
pub open spec fn same_content(rec: ChainRecord, xml_hash: Seq<u8>, media_hashes: Seq<Seq<u8>>) -> bool {
    rec.xml_hash@ == xml_hash && byte_seqs(rec.media_hashes@) == media_hashes
}

/// Classifies a submission against the latest record for its instance id.
pub fn classify_submission(existing: Option<&ChainRecord>, xml_hash: &[u8], media_hashes: &Vec<Vec<u8>>) -> (a: Admission)
    ensures
        match existing {
            None => a is New,
            Some(rec) => if rec.xml_hash@ == xml_hash@ && byte_seqs(rec.media_hashes@) == byte_seqs(media_hashes@) {
                a is Duplicate
            } else {
                a matches Admission::Conflict(w) && w@ == rec.wavehash@
            },
        },
        a is Duplicate <==> (existing matches Some(rec) && same_content(*rec, xml_hash@, byte_seqs(media_hashes@))),
{
    match existing {
        None => Admission::New,
        Some(rec) => {
            let same_xml = bytes_equal(rec.xml_hash.as_slice(), xml_hash);
            let same_media = lists_equal(&rec.media_hashes, media_hashes);
            if same_xml && same_media {
                Admission::Duplicate
            } else {
                let w = rec.wavehash.clone();
                Admission::Conflict(w)
            }
        },
    }
}

/// The ASCII decimal digits of a natural number.
pub open spec fn decimal_digits(n: nat) -> Seq<u8>
    decreases n,
{
    if n < 10 {
        seq![(48 + n) as u8]
    } else {
        decimal_digits(n / 10).push((48 + n % 10) as u8)
    }
}

/// The decimal text of an integer, with a leading `-` when negative.
pub open spec fn decimal(x: int) -> Seq<u8> {
    if x < 0 {
        seq![45u8] + decimal_digits((-x) as nat)
    } else {
        decimal_digits(x as nat)
    }
}

/// Appends the decimal digits of `n` to `out`.
fn push_digits(n: u64, out: &mut Vec<u8>)
    ensures
        final(out)@ == old(out)@ + decimal_digits(n as nat),
    decreases n,
{
    if n >= 10 {
        push_digits(n / 10, out);
    }
    out.push(48 + (n % 10) as u8);
    proof {
        if n >= 10 {
            assert(decimal_digits(n as nat) == decimal_digits((n / 10) as nat).push((48 + n % 10) as u8));
        }
    }
    assert(final(out)@ =~= old(out)@ + decimal_digits(n as nat));
}

/// The metadata hashed into H0 with a submission: its instance id, a colon,
/// and the Unix time in seconds, in decimal.
pub open spec fn submission_metadata(instance_id: Seq<u8>, unix_secs: i64) -> Seq<u8> {
    instance_id + seq![58u8] + decimal(unix_secs as int)
}

/// The metadata hashed into H0 with a submission: `"{instance_id}:{unix_secs}"`, in UTF-8.
pub fn metadata_bytes(instance_id: &str, unix_secs: i64) -> (m: Vec<u8>)
    ensures
        m@ == submission_metadata(encode_utf8_of(instance_id@), unix_secs),
{
    let mut out: Vec<u8> = Vec::new();
    let id = instance_id.as_bytes();
    let mut i: usize = 0;
    while i < id.len()
        invariant
            i <= id@.len(),
            out@ == id@.subrange(0, i as int),
        decreases id@.len() - i,
    {
        out.push(id[i]);
        i = i + 1;
        assert(out@ =~= id@.subrange(0, i as int));
    }
    assert(id@.subrange(0, i as int) =~= id@);
    out.push(58);
    let ghost prefix = out@;
    if unix_secs < 0 {
        out.push(45);
        let magnitude = (0 - (unix_secs as i128)) as u64;
        push_digits(magnitude, &mut out);
    } else {
        push_digits(unix_secs as u64, &mut out);
    }
    assert(out@ =~= prefix + decimal(unix_secs as int));
    out
}

/// The record that seals a new or conflicting submission.
pub open spec fn seals(
    rec: ChainRecord,
    instance_id: Seq<char>,
    xml: Seq<u8>,
    unix_secs: i64,
    salt: Seq<u8>,
    parent: Seq<u8>,
    day: i64,
    tick: i64,
    xml_hash: Seq<u8>,
    media_hashes: Seq<Seq<u8>>,
    timestamp: i64,
    admission: Admission,
) -> bool {
    let metadata = submission_metadata(encode_utf8_of(instance_id), unix_secs);
    let h0 = sha256_of(h0_message(xml, metadata, salt));
    let h1 = sha256_of(h1_message(h0, parent));
    &&& rec.instance_id@ == instance_id
    &&& rec.day == day
    &&& rec.tick == tick
    &&& rec.h0@ == h0
    &&& rec.h1@ == h1
    &&& rec.wavehash@ == sha256_of(wavehash_message(day, tick, h1, media_hashes))
    &&& rec.parent_wavehash@ == parent
    &&& byte_seqs(rec.media_hashes@) == media_hashes
    &&& rec.xml_hash@ == xml_hash
    &&& rec.timestamp == timestamp
    &&& match admission {
        Admission::Conflict(w) => rec.conflict_detected && (rec.previous_hash matches Some(p) && p@ == w@),
        _ => !rec.conflict_detected && rec.previous_hash is None,
    }
}

/// The UTF-8 encoding of a text.
pub open spec fn encode_utf8_of(s: Seq<char>) -> Seq<u8> {
    vstd::utf8::encode_utf8(s)
}

/// The view of an optional byte vector.
pub open spec fn opt_bytes_view(v: Option<Vec<u8>>) -> Option<Seq<u8>> {
    match v {
        Some(b) => Some(b@),
        None => None,
    }
}

/// Seals a new or conflicting submission into a chain record: H0 over the
/// XML, the metadata and the salt; H1 over H0 and the parent wavehash (the
/// chain's head `head`, or nothing on an empty chain); the wavehash over the counter reading, H1 and the media
/// hashes. A conflict is flagged and keeps the wavehash of the record it
/// conflicts with.
pub fn seal_record(
    instance_id: String,
    xml: &[u8],
    unix_secs: i64,
    salt: &[u8; 32],
    head: Option<Vec<u8>>,
    day: i64,
    tick: i64,
    xml_hash: Vec<u8>,
    media_hashes: Vec<Vec<u8>>,
    timestamp: i64,
    admission: Admission,
) -> (rec: ChainRecord)
    requires
        !(admission is Duplicate),
    ensures
        seals(rec, instance_id@, xml@, unix_secs, salt@, parent_for(opt_bytes_view(head)), day, tick, xml_hash@,
            byte_seqs(media_hashes@), timestamp, admission),
        rec.xml_hash@ == xml_hash@,
        byte_seqs(rec.media_hashes@) == byte_seqs(media_hashes@),
        rec.parent_wavehash@ == parent_for(opt_bytes_view(head)),
        rec.h0@.len() == HASH_LEN,
        rec.h1@.len() == HASH_LEN,
        rec.wavehash@.len() == HASH_LEN,
{
    let parent = match head {
        Some(h) => h,
        None => Vec::new(),
    };
    let metadata = metadata_bytes(instance_id.as_str(), unix_secs);
    let h0 = compute_h0(xml, metadata.as_slice(), salt);
    let h1 = compute_h1(h0.as_slice(), parent.as_slice());
    let wavehash = compute_wavehash(day, tick, h1.as_slice(), media_hashes.as_slice());
    let (conflict_detected, previous_hash) = match admission {
        Admission::Conflict(w) => (true, Some(w)),
        _ => (false, None),
    };
    ChainRecord {
        instance_id,
        day,
        tick,
        h0,
        h1,
        wavehash,
        parent_wavehash: parent,
        media_hashes,
        xml_hash,
        timestamp,
        conflict_detected,
        previous_hash,
    }
}

/// The modification time of a file: whether it is at or after the Unix
/// epoch, and its distance from the epoch.
#[derive(Debug, Clone, Copy, PartialEq, Eq, Structural)]
pub struct FileTime {
    pub after_epoch: bool,
    pub secs: u64,
    pub nanos: u32,
}

/// One file of a directory snapshot: its path, modification time and length.
pub struct SnapshotEntry {
    pub path: Vec<u8>,
    pub modified: FileTime,
    pub len: u64,
}

/// The views of a snapshot.
pub open spec fn snapshot_view(s: Seq<SnapshotEntry>) -> Seq<(Seq<u8>, FileTime, u64)> {
    s.map_values(|e: SnapshotEntry| (e.path@, e.modified, e.len))
}

/// Whether two snapshots of a directory, each sorted by path, are the same.
pub fn snapshots_equal(s1: &Vec<SnapshotEntry>, s2: &Vec<SnapshotEntry>) -> (eq: bool)
    ensures
        eq == (snapshot_view(s1@) == snapshot_view(s2@)),
{
    if s1.len() != s2.len() {
        assert(snapshot_view(s1@).len() != snapshot_view(s2@).len());
        return false;
    }
    let mut i: usize = 0;
    while i < s1.len()
        invariant
            s1@.len() == s2@.len(),
            i <= s1@.len(),
            forall|j: int| 0 <= j < i ==> snapshot_view(s1@)[j] == snapshot_view(s2@)[j],
        decreases s1@.len() - i,
    {
        let a = &s1[i];
        let b = &s2[i];
        let same = bytes_equal(a.path.as_slice(), b.path.as_slice())
            && a.modified.after_epoch == b.modified.after_epoch
            && a.modified.secs == b.modified.secs
            && a.modified.nanos == b.modified.nanos
            && a.len == b.len;
        if !same {
            assert(snapshot_view(s1@)[i as int] != snapshot_view(s2@)[i as int]);
            return false;
        }
        i = i + 1;
    }
    assert(snapshot_view(s1@) =~= snapshot_view(s2@));
    true
}

proof fn lemma_media_before_strict(keys: Seq<Seq<u8>>, a: int, b: int)
    ensures
        !media_before(keys, a, a),
        media_before(keys, a, b) ==> !media_before(keys, b, a),
{
    lemma_lex_irreflexive(keys[a]);
    if lex_lt(keys[a], keys[b]) {
        lemma_lex_asymmetric(keys[a], keys[b]);
        if keys[a] == keys[b] {
            lemma_lex_irreflexive(keys[a]);
        }
    }
    if lex_lt(keys[b], keys[a]) && keys[a] == keys[b] {
        lemma_lex_irreflexive(keys[a]);
    }
}

proof fn lemma_media_prefix(names: Seq<Seq<char>>, keys: Seq<Seq<u8>>, o1: Seq<usize>, o2: Seq<usize>, k: nat)
    requires
        is_media_order(names, keys, o1),
        is_media_order(names, keys, o2),
        k <= o1.len(),
        k <= o2.len(),
    ensures
        forall|p: int| 0 <= p < k ==> o1[p] == o2[p],
    decreases k,
{
    if k > 0 {
        lemma_media_prefix(names, keys, o1, o2, (k - 1) as nat);
        let last = k - 1;
        let a = o1[last];
        let b = o2[last];
        if a != b {
            assert(o1[last] < names.len() && !is_reserved(names[a as int]));
            assert(o2[last] < names.len() && !is_reserved(names[b as int]));
            assert(o2.contains(a));
            assert(o1.contains(b));
            let j = choose|j: int| 0 <= j < o2.len() && o2[j] == a;
            let i = choose|i: int| 0 <= i < o1.len() && o1[i] == b;
            lemma_media_before_strict(keys, a as int, b as int);
            lemma_media_before_strict(keys, b as int, a as int);
            if j < last {
                assert(o1[j] == o2[j]);
                assert(media_before(keys, o1[j] as int, o1[last] as int));
            } else if i < last {
                assert(o1[i] == o2[i]);
                assert(media_before(keys, o2[i] as int, o2[last] as int));
            } else {
                assert(j != last && i != last);
                assert(media_before(keys, o2[last] as int, o2[j] as int));
                assert(media_before(keys, o1[last] as int, o1[i] as int));
            }
        }
    }
}

/// Media files are collected deterministically: the order that
/// `order_media` promises is the only one that meets its contract.
pub proof fn lemma_media_order_unique(names: Seq<Seq<char>>, keys: Seq<Seq<u8>>, o1: Seq<usize>, o2: Seq<usize>)
    requires
        is_media_order(names, keys, o1),
        is_media_order(names, keys, o2),
    ensures
        o1 == o2,
{
    let m = if o1.len() <= o2.len() { o1.len() } else { o2.len() };
    lemma_media_prefix(names, keys, o1, o2, m);
    if o1.len() > o2.len() {
        let a = o1[m as int];
        assert(o1[m as int] < names.len() && !is_reserved(names[a as int]));
        assert(o2.contains(a));
        let j = choose|j: int| 0 <= j < o2.len() && o2[j] == a;
        assert(o1[j] == o2[j]);
        assert(media_before(keys, o1[j] as int, o1[m as int] as int));
        lemma_media_before_strict(keys, a as int, a as int);
    } else if o2.len() > o1.len() {
        let a = o2[m as int];
        assert(o2[m as int] < names.len() && !is_reserved(names[a as int]));
        assert(o1.contains(a));
        let j = choose|j: int| 0 <= j < o1.len() && o1[j] == a;
        assert(o1[j] == o2[j]);
        assert(media_before(keys, o2[j] as int, o2[m as int] as int));
        lemma_media_before_strict(keys, a as int, a as int);
    }
    assert(o1 =~= o2);
}

/// The parent of a new record: the wavehash at the chain's head, or nothing
/// on an empty chain.
pub open spec fn parent_for(head: Option<Seq<u8>>) -> Seq<u8> {
    match head {
        Some(h) => h,
        None => Seq::empty(),
    }
}

/// A record sealed with the chain's head as its parent extends the chain
/// without a break, and becomes its new head.
pub proof fn lemma_sealed_record_extends_chain(links: Seq<(Seq<u8>, Seq<u8>)>, rec: ChainRecord)
    requires
        rec.parent_wavehash@ == parent_for(chain_head(links)),
    ensures
        chain_breaks(links.push((rec.wavehash@, rec.parent_wavehash@))) == chain_breaks(links),
        chain_head(links.push((rec.wavehash@, rec.parent_wavehash@))) == Some(rec.wavehash@),
{
    lemma_linked_append(links, rec.wavehash@, rec.parent_wavehash@);
}

/// A sealed record keeps the content hashes it was sealed with, whatever
/// the time, salt, head and counter reading that went into its H0, H1 and
/// wavehash: its XML hash is the given hash of the submission's XML and its
/// media hashes are the given ones, in order. So the same content submitted
/// again is classified as a duplicate of it, never as a conflict.
pub proof fn lemma_sealed_record_keeps_content(
    rec: ChainRecord,
    instance_id: Seq<char>,
    xml: Seq<u8>,
    unix_secs: i64,
    salt: Seq<u8>,
    parent: Seq<u8>,
    day: i64,
    tick: i64,
    xml_hash: Seq<u8>,
    media_hashes: Seq<Seq<u8>>,
    timestamp: i64,
    admission: Admission,
)
    requires
        seals(rec, instance_id, xml, unix_secs, salt, parent, day, tick, xml_hash, media_hashes, timestamp, admission),
    ensures
        rec.xml_hash@ == xml_hash,
        byte_seqs(rec.media_hashes@) == media_hashes,
        same_content(rec, xml_hash, media_hashes),
{
}

} // verus!
