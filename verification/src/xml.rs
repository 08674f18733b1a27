//! Validation of a submission's XML and extraction of its instance id.
//!
//! The XML is tokenised by `quick_xml`; the rules that decide whether the
//! document is acceptable and which text is its instance id are verified
//! here, over the sequence of events the tokeniser yields.

use vstd::prelude::*;
use quick_xml::events::Event;

verus! {

/// One event of the XML tokeniser, in plain values.
pub enum XmlEvent {
    /// A start tag, with its local name.
    Start(Vec<u8>),
    /// An empty-element tag, with its local name.
    Empty(Vec<u8>),
    /// An end tag, with its local name.
    End(Vec<u8>),
    /// Character data, unescaped; `None` where unescaping failed.
    Text(Option<String>),
    /// Any other event (comment, CDATA, declaration, ...).
    Other,
    /// End of the document.
    Eof,
    /// A tokeniser error, with its message.
    Error(String),
}

/// The mathematical value of an [`XmlEvent`].
pub enum XmlEventView {
    Start(Seq<u8>),
    Empty(Seq<u8>),
    End(Seq<u8>),
    Text(Option<Seq<char>>),
    Other,
    Eof,
    Error(Seq<char>),
}

impl View for XmlEvent {
    type V = XmlEventView;

    open spec fn view(&self) -> XmlEventView {
        match self {
            XmlEvent::Start(n) => XmlEventView::Start(n@),
            XmlEvent::Empty(n) => XmlEventView::Empty(n@),
            XmlEvent::End(n) => XmlEventView::End(n@),
            XmlEvent::Text(t) => XmlEventView::Text(
                match t {
                    Some(s) => Some(s@),
                    None => None,
                },
            ),
            XmlEvent::Other => XmlEventView::Other,
            XmlEvent::Eof => XmlEventView::Eof,
            XmlEvent::Error(m) => XmlEventView::Error(m@),
        }
    }
}

/// Whether an event ends the tokeniser's output.
pub open spec fn is_terminal(e: XmlEventView) -> bool {
    e is Eof || e is Error
}

/// The events that `quick_xml`'s reader, with text trimming on, yields for
/// `xml`, up to and including the first end-of-document or error.
pub uninterp spec fn xml_events(xml: Seq<u8>) -> Seq<XmlEventView>;

#[verifier::external_type_specification]
#[verifier::external_body]
#[verifier::reject_recursive_types(R)]
pub struct ExXmlReader<R>(quick_xml::Reader<R>);

/// A position in the event stream of one XML document.
pub struct XmlCursor<'a> {
    reader: quick_xml::Reader<&'a [u8]>,
    input: Ghost<Seq<u8>>,
    consumed: Ghost<nat>,
}

impl<'a> XmlCursor<'a> {
    /// The document being read.
    pub closed spec fn input(&self) -> Seq<u8> {
        self.input@
    }

    /// How many events have been read so far.
    pub closed spec fn consumed(&self) -> nat {
        self.consumed@
    }
}

/// Opens a `quick_xml::Reader` over `xml` (`Reader::from_reader`) and turns
/// text trimming on (`Reader::trim_text(true)`), as the reader that
/// `xml_events` speaks of. Trusted: the event stream of a document holds at
/// least its terminal event.
#[verifier::external_body]
fn open_xml<'a>(xml: &'a [u8]) -> (cursor: XmlCursor<'a>)
    ensures
        cursor.input() == xml@,
        cursor.consumed() == 0,
        xml_events(cursor.input()).len() >= 1,
{
    let mut reader = quick_xml::Reader::from_reader(xml);
    reader.trim_text(true);
    XmlCursor { reader, input: Ghost(xml@), consumed: Ghost(0) }
}

/// Reads the next event with `quick_xml::Reader::read_event_into` and turns
/// it into plain values (local names of tags; text unescaped with
/// `BytesText::unescape`; the error's message). Trusted: the result is the
/// next event of `xml_events` for the cursor's document, and an event ends
/// the stream exactly when it is the last one.
#[verifier::external_body]
fn next_xml_event(cursor: &mut XmlCursor) -> (event: XmlEvent)
    requires
        old(cursor).consumed() < xml_events(old(cursor).input()).len(),
    ensures
        final(cursor).input() == old(cursor).input(),
        final(cursor).consumed() == old(cursor).consumed() + 1,
        event@ == xml_events(old(cursor).input())[old(cursor).consumed() as int],
        is_terminal(event@) <==> final(cursor).consumed() == xml_events(old(cursor).input()).len(),
{
    let mut buf = Vec::new();
    match cursor.reader.read_event_into(&mut buf) {
        Ok(Event::Start(e)) => XmlEvent::Start(e.local_name().as_ref().to_vec()),
        Ok(Event::Empty(e)) => XmlEvent::Empty(e.local_name().as_ref().to_vec()),
        Ok(Event::End(e)) => XmlEvent::End(e.local_name().as_ref().to_vec()),
        Ok(Event::Text(e)) => XmlEvent::Text(e.unescape().ok().map(|t| t.into_owned())),
        Ok(Event::Eof) => XmlEvent::Eof,
        Ok(_) => XmlEvent::Other,
        Err(e) => XmlEvent::Error(e.to_string()),
    }
}

/// Whether a character has the Unicode `White_Space` property.
pub open spec fn is_white_space(c: char) -> bool {
    let u = c as u32;
    ||| 0x09 <= u <= 0x0D
    ||| u == 0x20
    ||| u == 0x85
    ||| u == 0xA0
    ||| u == 0x1680
    ||| 0x2000 <= u <= 0x200A
    ||| u == 0x2028
    ||| u == 0x2029
    ||| u == 0x202F
    ||| u == 0x205F
    ||| u == 0x3000
}

/// `s` without its leading and trailing white space.
pub open spec fn trim_white_space(s: Seq<char>) -> Seq<char>
    decreases s.len(),
{
    if s.len() == 0 {
        s
    } else if is_white_space(s.first()) {
        trim_white_space(s.drop_first())
    } else if is_white_space(s.last()) {
        trim_white_space(s.drop_last())
    } else {
        s
    }
}

/// `str::trim`. Trusted: as its documentation says, the result is `s` with
/// leading and trailing white space removed, white space being the
/// characters with the Unicode `White_Space` property.
#[verifier::external_body]
fn trim_str(s: &str) -> (t: &str)
    ensures
        t@ == trim_white_space(s@),
{
    s.trim()
}

/// ASCII lower-casing of one byte.
pub open spec fn ascii_lower(b: u8) -> u8 {
    if 65 <= b <= 90 {
        (b + 32) as u8
    } else {
        b
    }
}

/// `instanceid`, in bytes.
pub open spec fn instanceid_bytes() -> Seq<u8> {
    seq![105u8, 110u8, 115u8, 116u8, 97u8, 110u8, 99u8, 101u8, 105u8, 100u8]
}

/// `instance_id`, in bytes.
pub open spec fn instance_id_bytes() -> Seq<u8> {
    seq![105u8, 110u8, 115u8, 116u8, 97u8, 110u8, 99u8, 101u8, 95u8, 105u8, 100u8]
}

/// Whether a tag's local name is `instanceID` or `instance_id`, ignoring ASCII case.
pub open spec fn is_id_tag(name: Seq<u8>) -> bool {
    let lower = name.map_values(|b: u8| ascii_lower(b));
    lower == instanceid_bytes() || lower == instance_id_bytes()
}

/// The instance id found so far, after a text event.
pub open spec fn after_text(inside: bool, id: Option<Seq<char>>, text: Option<Seq<char>>) -> Option<Seq<char>> {
    if inside && id is None && text is Some && trim_white_space(text->0).len() > 0 {
        Some(trim_white_space(text->0))
    } else {
        id
    }
}

/// The verdict at the end of the document.
pub open spec fn at_end(depth: nat, id: Option<Seq<char>>) -> Result<Seq<char>, Seq<char>> {
    if depth != 0 {
        Err("unclosed tags"@)
    } else if id is None {
        Err("missing or empty <instance_id> or <instanceID> element"@)
    } else {
        Ok(id->0)
    }
}

/// The verdict on the events from index `i` on, given the nesting depth,
/// whether the reader is inside an instance-id element, and the id found so far.
pub open spec fn scan(
    events: Seq<XmlEventView>,
    i: nat,
    depth: nat,
    inside: bool,
    id: Option<Seq<char>>,
) -> Result<Seq<char>, Seq<char>>
    decreases events.len() - i,
{
    if i >= events.len() {
        at_end(depth, id)
    } else {
        match events[i as int] {
            XmlEventView::Start(n) => scan(events, i + 1, depth + 1, inside || is_id_tag(n), id),
            XmlEventView::Empty(_) => scan(events, i + 1, depth, inside, id),
            XmlEventView::Text(t) => scan(events, i + 1, depth, inside, after_text(inside, id, t)),
            XmlEventView::End(n) => if depth == 0 {
                Err("mismatched tags"@)
            } else {
                scan(events, i + 1, (depth - 1) as nat, if is_id_tag(n) { false } else { inside }, id)
            },
            XmlEventView::Other => scan(events, i + 1, depth, inside, id),
            XmlEventView::Eof => at_end(depth, id),
            XmlEventView::Error(m) => Err("XML parse error: "@ + m),
        }
    }
}

/// The verdict on a whole event stream.
pub open spec fn spec_extract(events: Seq<XmlEventView>) -> Result<Seq<char>, Seq<char>> {
    scan(events, 0, 0, false, None)
}

/// The views of a sequence of events.
pub open spec fn event_views(events: Seq<XmlEvent>) -> Seq<XmlEventView> {
    events.map_values(|e: XmlEvent| e@)
}

/// The view of an optional string.
pub open spec fn opt_view(s: Option<String>) -> Option<Seq<char>> {
    match s {
        Some(x) => Some(x@),
        None => None,
    }
}

/// The view of a string result.
pub open spec fn result_view(r: Result<String, String>) -> Result<Seq<char>, Seq<char>> {
    match r {
        Ok(s) => Ok(s@),
        Err(e) => Err(e@),
    }
}

/// Whether `name`, ASCII-lower-cased, equals `pattern`.
fn lower_equals(name: &[u8], pattern: &[u8]) -> (b: bool)
    ensures
        b == (name@.map_values(|c: u8| ascii_lower(c)) == pattern@),
{
    let lower = Ghost(name@.map_values(|c: u8| ascii_lower(c)));
    if name.len() != pattern.len() {
        assert(lower@.len() != pattern@.len());
        return false;
    }
    let mut i: usize = 0;
    while i < name.len()
        invariant
            name@.len() == pattern@.len(),
            lower@ == name@.map_values(|c: u8| ascii_lower(c)),
            i <= name@.len(),
            forall|j: int| 0 <= j < i ==> lower@[j] == pattern@[j],
        decreases name@.len() - i,
    {
        let b = name[i];
        let l = if 65 <= b && b <= 90 { b + 32 } else { b };
        if l != pattern[i] {
            assert(lower@[i as int] != pattern@[i as int]);
            return false;
        }
        i = i + 1;
    }
    assert(lower@ =~= pattern@);
    true
}

/// Whether a tag's local name is `instanceID` or `instance_id`, ignoring ASCII case.
fn is_id_tag_exec(name: &[u8]) -> (b: bool)
    ensures
        b == is_id_tag(name@),
{
    let a: [u8; 10] = [105, 110, 115, 116, 97, 110, 99, 101, 105, 100];
    let u: [u8; 11] = [105, 110, 115, 116, 97, 110, 99, 101, 95, 105, 100];
    assert(a@ =~= instanceid_bytes());
    assert(u@ =~= instance_id_bytes());
    lower_equals(name, a.as_slice()) || lower_equals(name, u.as_slice())
}

/// Extracts the instance id from the events of an XML document: the first
/// non-empty trimmed text inside an `instance_id`/`instanceID` element
/// (names compared ignoring ASCII case); an empty element
/// (`<instanceID/>`) holds no text and so no id. Fails on an end tag without a
/// matching start, on a tokeniser error, on tags left open at the end, and
/// when no such text is found.
pub fn extract_instance_id(events: &Vec<XmlEvent>) -> (r: Result<String, String>)
    ensures
        result_view(r) == spec_extract(event_views(events@)),
{
    let ghost evs = event_views(events@);
    let mut i: usize = 0;
    let mut depth: usize = 0;
    let mut inside = false;
    let mut id: Option<String> = None;
    while i < events.len()
        invariant
            evs == event_views(events@),
            i <= events@.len(),
            depth <= i,
            scan(evs, i as nat, depth as nat, inside, opt_view(id))
                == spec_extract(evs),
        decreases events@.len() - i,
    {
        assert(evs[i as int] == events@[i as int]@);
        match &events[i] {
            XmlEvent::Start(n) => {
                if is_id_tag_exec(n.as_slice()) {
                    inside = true;
                }
                depth = depth + 1;
            },
            XmlEvent::Empty(_) => {},
            XmlEvent::Text(t) => {
                if inside && id.is_none() {
                    match t {
                        Some(text) => {
                            let trimmed = trim_str(text.as_str());
                            if !trimmed.is_empty() {
                                id = Some(trimmed.to_owned());
                            }
                        },
                        None => {},
                    }
                }
            },
            XmlEvent::End(n) => {
                if depth == 0 {
                    return Err("mismatched tags".to_owned());
                }
                depth = depth - 1;
                if is_id_tag_exec(n.as_slice()) {
                    inside = false;
                }
            },
            XmlEvent::Other => {},
            XmlEvent::Eof => {
                return finish(depth, id);
            },
            XmlEvent::Error(m) => {
                let mut msg = "XML parse error: ".to_owned();
                msg.append(m.as_str());
                return Err(msg);
            },
        }
        i = i + 1;
    }
    finish(depth, id)
}

/// The verdict at the end of the document.
fn finish(depth: usize, id: Option<String>) -> (r: Result<String, String>)
    ensures
        result_view(r) == at_end(depth as nat, opt_view(id)),
{
    if depth != 0 {
        return Err("unclosed tags".to_owned());
    }
    match id {
        Some(s) => Ok(s),
        None => Err("missing or empty <instance_id> or <instanceID> element".to_owned()),
    }
}

/// Validates that the XML is well-formed and contains an instance_id/instanceID element.
/// Returns the extracted instance_id if found and non-empty, else an error.
pub fn validate_and_extract_instance_id(xml: &[u8]) -> (r: Result<String, String>)
    ensures
        xml@.len() == 0 ==> result_view(r) == Err::<Seq<char>, Seq<char>>("empty file"@),
        xml@.len() > 0 ==> result_view(r) == spec_extract(xml_events(xml@)),
{
    if xml.len() == 0 {
        return Err("empty file".to_owned());
    }
    let mut cursor = open_xml(xml);
    let ghost all = xml_events(xml@);
    let mut events: Vec<XmlEvent> = Vec::new();
    loop
        invariant_except_break
            cursor.consumed() < all.len(),
        invariant
            cursor.input() == xml@,
            all == xml_events(xml@),
            all.len() >= 1,
            cursor.consumed() <= all.len(),
            events@.len() == cursor.consumed(),
            event_views(events@) =~= all.subrange(0, cursor.consumed() as int),
        ensures
            cursor.consumed() == all.len(),
            event_views(events@) =~= all.subrange(0, cursor.consumed() as int),
        decreases all.len() - cursor.consumed(),
    {
        let event = next_xml_event(&mut cursor);
        let done = match &event {
            XmlEvent::Eof => true,
            XmlEvent::Error(_) => true,
            _ => false,
        };
        events.push(event);
        assert(event_views(events@) =~= all.subrange(0, cursor.consumed() as int));
        if done {
            break;
        }
    }
    assert(event_views(events@) =~= all);
    extract_instance_id(&events)
}

/// Whether a text is non-empty and neither starts nor ends with white space.
pub open spec fn is_trimmed_nonempty(t: Seq<char>) -> bool {
    t.len() > 0 && !is_white_space(t.first()) && !is_white_space(t.last())
}

proof fn lemma_trim_result(s: Seq<char>)
    ensures
        trim_white_space(s).len() > 0 ==> is_trimmed_nonempty(trim_white_space(s)),
    decreases s.len(),
{
    if s.len() > 0 {
        if is_white_space(s.first()) {
            lemma_trim_result(s.drop_first());
        } else if is_white_space(s.last()) {
            lemma_trim_result(s.drop_last());
        }
    }
}

proof fn lemma_scan_ok(events: Seq<XmlEventView>, i: nat, depth: nat, inside: bool, id: Option<Seq<char>>)
    requires
        id matches Some(t) ==> is_trimmed_nonempty(t),
    ensures
        scan(events, i, depth, inside, id) matches Ok(t) ==> is_trimmed_nonempty(t),
    decreases events.len() - i,
{
    if i < events.len() {
        match events[i as int] {
            XmlEventView::Start(n) => lemma_scan_ok(events, i + 1, depth + 1, inside || is_id_tag(n), id),
            XmlEventView::Empty(_) => lemma_scan_ok(events, i + 1, depth, inside, id),
            XmlEventView::Text(t) => {
                if t is Some {
                    lemma_trim_result(t->0);
                }
                lemma_scan_ok(events, i + 1, depth, inside, after_text(inside, id, t));
            },
            XmlEventView::End(n) => if depth > 0 {
                lemma_scan_ok(events, i + 1, (depth - 1) as nat, if is_id_tag(n) { false } else { inside }, id);
            },
            XmlEventView::Other => lemma_scan_ok(events, i + 1, depth, inside, id),
            _ => {},
        }
    }
}

/// An accepted instance id is never empty and never starts or ends with white space.
pub proof fn lemma_instance_id_is_trimmed(events: Seq<XmlEventView>)
    ensures
        spec_extract(events) matches Ok(id) ==> is_trimmed_nonempty(id),
{
    lemma_scan_ok(events, 0, 0, false, None);
}

/// Whether the tokeniser reported an error before the end of the document:
/// some event is an error and no end-of-document comes before it.
pub open spec fn error_before_end(events: Seq<XmlEventView>) -> bool {
    exists|j: int| 0 <= j < events.len() && #[trigger] events[j] is Error
        && forall|k: int| 0 <= k < j ==> !(#[trigger] events[k] is Eof)
}

proof fn lemma_scan_rejects_error(
    events: Seq<XmlEventView>,
    i: nat,
    depth: nat,
    inside: bool,
    id: Option<Seq<char>>,
    j: int,
)
    requires
        i <= j < events.len(),
        events[j] is Error,
        forall|k: int| i <= k < j ==> !(#[trigger] events[k] is Eof),
    ensures
        scan(events, i, depth, inside, id) is Err,
    decreases events.len() - i,
{
    if i < j {
        assert(!(events[i as int] is Eof));
        match events[i as int] {
            XmlEventView::Start(n) => lemma_scan_rejects_error(events, i + 1, depth + 1, inside || is_id_tag(n), id, j),
            XmlEventView::Empty(_) => lemma_scan_rejects_error(events, i + 1, depth, inside, id, j),
            XmlEventView::Text(t) => lemma_scan_rejects_error(events, i + 1, depth, inside, after_text(inside, id, t), j),
            XmlEventView::End(n) => if depth > 0 {
                lemma_scan_rejects_error(events, i + 1, (depth - 1) as nat, if is_id_tag(n) { false } else { inside }, id, j);
            },
            XmlEventView::Other => lemma_scan_rejects_error(events, i + 1, depth, inside, id, j),
            _ => {},
        }
    }
}

/// Only well-formed documents are accepted: if the tokeniser reports an
/// error before the end of the document, the document is rejected, whatever
/// instance id was seen before the error; and when nothing before the error
/// has already rejected it, the rejection is the tokeniser's message.
pub proof fn lemma_malformed_is_rejected(events: Seq<XmlEventView>)
    ensures
        error_before_end(events) ==> spec_extract(events) is Err,
        events.len() > 0 ==> (events[0] matches XmlEventView::Error(m)
            ==> spec_extract(events) == Err::<Seq<char>, Seq<char>>("XML parse error: "@ + m)),
{
    if error_before_end(events) {
        let j = choose|j: int| 0 <= j < events.len() && #[trigger] events[j] is Error
            && forall|k: int| 0 <= k < j ==> !(#[trigger] events[k] is Eof);
        lemma_scan_rejects_error(events, 0, 0, false, None, j);
    }
}

/// An accepted document held no tokeniser error before its end.
pub proof fn lemma_accepted_has_no_error(events: Seq<XmlEventView>)
    ensures
        spec_extract(events) is Ok ==> forall|j: int| 0 <= j < events.len()
            && (forall|k: int| 0 <= k < j ==> !(#[trigger] events[k] is Eof))
            ==> !(#[trigger] events[j] is Error),
{
    if spec_extract(events) is Ok {
        assert forall|j: int| 0 <= j < events.len()
            && (forall|k: int| 0 <= k < j ==> !(#[trigger] events[k] is Eof))
            implies !(#[trigger] events[j] is Error) by {
            if events[j] is Error {
                lemma_scan_rejects_error(events, 0, 0, false, None, j);
            }
        }
    }
}

} // verus!
