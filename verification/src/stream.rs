//! Reading the header and the closing section of a report straight from the
//! events of its markup, as a reader over the bytes of the document hands
//! them out.

use vstd::prelude::*;
use vstd::string::{StringExecFns, StringSliceAdditionalSpecFns};
use vstd::utf8::{decode_utf8, valid_utf8};
use quick_xml::events::Event;
use quick_xml::Reader;
use crate::error::ExtractError;
use crate::info::{
    fields_of, HeaderDraft, HeaderInfo, HeaderInfoBuilder, HeaderInfoView, SectionDraft, SectionG,
    SectionGBuilder, SectionGView,
};
use crate::record::{ExtractedInfo, ExtractedInfoView};
use crate::scan::{first_index, lemma_first_index, lemma_first_index_is};
use crate::text::{contains, occurs_in, same_text};

verus! {

/// `quick_xml::Reader`: a reader of markup over a source of bytes. What it
/// holds is not looked into here.
#[verifier::external_type_specification]
#[verifier::external_body]
#[verifier::reject_recursive_types(R)]
pub struct ExReader<R>(Reader<R>);

/// `quick_xml::Error`: what a reader reports when it cannot go on.
#[verifier::external_type_specification]
#[verifier::external_body]
pub struct ExXmlError(quick_xml::Error);

/// One event of a document's markup, with what this library reads of it.
#[derive(Debug)]
pub enum XmlEvent {
    /// A start tag, with its name.
    Start(Vec<u8>),
    /// The text between two tags, as it stands in the document.
    Text(Vec<u8>),
    /// An end tag.
    End,
    /// The declaration at the head of the document.
    Decl,
    /// The end of the document.
    Eof,
    /// Any other event.
    Other,
}

/// What a reader hands out at one call, before the end of the document.
pub enum Step {
    Start(Seq<u8>),
    Text(Seq<u8>),
    End,
    Decl,
    Other,
    /// The reader reported an error.
    Failed,
}

/// The event as a step. The end of the document is no step: it is what follows
/// the last one.
pub open spec fn step_of(event: XmlEvent) -> Option<Step> {
    match event {
        XmlEvent::Start(name) => Some(Step::Start(name@)),
        XmlEvent::Text(text) => Some(Step::Text(text@)),
        XmlEvent::End => Some(Step::End),
        XmlEvent::Decl => Some(Step::Decl),
        XmlEvent::Other => Some(Step::Other),
        XmlEvent::Eof => None,
    }
}

/// The steps that a reader over a slice of bytes has yet to hand out, one for
/// each call of `read_event_into` up to the call that reports the end of the
/// document. They are a matter of the reader's state alone: of the bytes it
/// has not read yet, of where it stands in the markup, and of its
/// configuration. They are finitely many, since the slice is.
pub uninterp spec fn pending(reader: Reader<&[u8]>) -> Seq<Step>;

/// `Reader::read_event_into`, with an event of this library for the reader's.
///
/// Each call hands out the first of the pending steps and leaves the others
/// pending: an event for an event, an error for `Failed`. When no step is
/// pending, and only then, the call reports the end of the document, and
/// nothing is pending afterwards either: a reader that has reported the end
/// goes on reporting it.
#[verifier::external_body]
fn next_event(reader: &mut Reader<&[u8]>) -> (r: Result<XmlEvent, quick_xml::Error>)
    ensures
        match r {
            Ok(event) => match step_of(event) {
                Some(step) => pending(*old(reader)).len() > 0 && pending(*old(reader))[0] == step
                    && pending(*final(reader)) == pending(*old(reader)).drop_first(),
                None => pending(*old(reader)).len() == 0 && pending(*final(reader)).len() == 0,
            },
            Err(_) => pending(*old(reader)).len() > 0 && pending(*old(reader))[0] == Step::Failed
                && pending(*final(reader)) == pending(*old(reader)).drop_first(),
        },
{
    let mut buf = Vec::new();
    Ok(match reader.read_event_into(&mut buf)? {
        Event::Start(e) => XmlEvent::Start(e.name().as_ref().to_vec()),
        Event::Text(t) => XmlEvent::Text(t.to_vec()),
        Event::End(_) => XmlEvent::End,
        Event::Decl(_) => XmlEvent::Decl,
        Event::Eof => XmlEvent::Eof,
        _ => XmlEvent::Other,
    })
}

/// What a scan of the pending steps comes to: its outcome, and the steps that
/// it leaves pending.
pub struct Scan<T> {
    pub outcome: Result<T, ExtractError>,
    pub rest: Seq<Step>,
}

/// A scan that failed with `e` and left `rest` pending.
pub open spec fn failed<T>(e: ExtractError, rest: Seq<Step>) -> Scan<T> {
    Scan { outcome: Err(e), rest }
}

/// A scan that found `value` and left `rest` pending.
pub open spec fn found<T>(value: T, rest: Seq<Step>) -> Scan<T> {
    Scan { outcome: Ok(value), rest }
}

/// The predicate "the step is the start tag `name`, or an error".
pub open spec fn stops_seek(name: Seq<u8>) -> spec_fn(Step) -> bool {
    |s: Step| s == Step::Start(name) || s == Step::Failed
}

/// The scan for the start tag `name`: it passes over every step up to the
/// first that is this start tag or an error, which it takes too. It fails with
/// `ElementNotFound` where the document ends first.
pub open spec fn seek(steps: Seq<Step>, name: Seq<u8>) -> Scan<()> {
    let k = first_index(steps, stops_seek(name));
    if k >= steps.len() {
        failed(ExtractError::ElementNotFound, Seq::empty())
    } else if steps[k] == Step::Failed {
        failed(ExtractError::Markup, steps.skip(k + 1))
    } else {
        found((), steps.skip(k + 1))
    }
}

/// Whether the two hold the same bytes.
pub fn same_bytes(a: &[u8], b: &[u8]) -> (r: bool)
    ensures
        r == (a@ == b@),
{
    if a.len() != b.len() {
        return false;
    }
    let mut i: usize = 0;
    while i < a.len()
        invariant
            a.len() == b.len(),
            i <= a.len(),
            forall|j: int| 0 <= j < i ==> a@[j] == b@[j],
        decreases a.len() - i,
    {
        if a[i] != b[i] {
            return false;
        }
        i += 1;
    }
    assert(a@ =~= b@);
    true
}

/// Reads up to and with the start tag `name`.
pub fn get_element(name: &[u8], reader: &mut Reader<&[u8]>) -> (r: Result<(), ExtractError>)
    ensures
        r == seek(pending(*old(reader)), name@).outcome,
        pending(*final(reader)) == seek(pending(*old(reader)), name@).rest,
{
    let ghost steps = pending(*reader);
    let ghost stop = stops_seek(name@);
    let ghost mut k: int = 0;
    proof {
        assert(steps.skip(0) == steps);
    }
    loop
        invariant
            0 <= k <= steps.len(),
            steps == pending(*old(reader)),
            stop == stops_seek(name@),
            pending(*reader) == steps.skip(k),
            forall|j: int| 0 <= j < k ==> !stop(#[trigger] steps[j]),
        decreases pending(*reader).len(),
    {
        let ghost before = pending(*reader);
        let event = next_event(reader);
        proof {
            if before.len() > 0 {
                assert(before[0] == steps[k]);
                assert(before.drop_first() == steps.skip(k + 1));
            }
        }
        match event {
            Err(_) => {
                proof {
                    lemma_first_index_is(steps, stop, k);
                }
                return Err(ExtractError::Markup);
            },
            Ok(XmlEvent::Eof) => {
                proof {
                    lemma_first_index_is(steps, stop, k);
                    assert(pending(*reader) =~= Seq::<Step>::empty());
                }
                return Err(ExtractError::ElementNotFound);
            },
            Ok(XmlEvent::Start(found_name)) => {
                if same_bytes(found_name.as_slice(), name) {
                    proof {
                        lemma_first_index_is(steps, stop, k);
                    }
                    return Ok(());
                }
            },
            Ok(_) => {},
        }
        proof {
            k = k + 1;
        }
    }
}

/// The predicate "the step is neither the declaration nor a start tag other
/// than `w:body`".
pub open spec fn stops_body() -> spec_fn(Step) -> bool {
    |s: Step| !(s == Step::Decl || (s is Start && s != Step::Start("w:body".spec_bytes())))
}

/// The scan for the body of the document: it passes over the declaration and
/// over the start tags that lead to the body, and takes the first step that
/// is something else. It succeeds where that is the start tag `w:body`.
pub open spec fn to_body(steps: Seq<Step>) -> Scan<()> {
    let k = first_index(steps, stops_body());
    if k >= steps.len() {
        failed(ExtractError::UnexpectedEvent, Seq::empty())
    } else if steps[k] == Step::Start("w:body".spec_bytes()) {
        found((), steps.skip(k + 1))
    } else if steps[k] == Step::Failed {
        failed(ExtractError::Markup, steps.skip(k + 1))
    } else {
        failed(ExtractError::UnexpectedEvent, steps.skip(k + 1))
    }
}

/// Reads up to and with the start tag of the body.
pub fn get_body(reader: &mut Reader<&[u8]>) -> (r: Result<(), ExtractError>)
    ensures
        r == to_body(pending(*old(reader))).outcome,
        pending(*final(reader)) == to_body(pending(*old(reader))).rest,
{
    let ghost steps = pending(*reader);
    let ghost stop = stops_body();
    let ghost mut k: int = 0;
    proof {
        assert(steps.skip(0) == steps);
    }
    loop
        invariant
            0 <= k <= steps.len(),
            steps == pending(*old(reader)),
            stop == stops_body(),
            pending(*reader) == steps.skip(k),
            forall|j: int| 0 <= j < k ==> !stop(#[trigger] steps[j]),
        decreases pending(*reader).len(),
    {
        let ghost before = pending(*reader);
        let event = next_event(reader);
        proof {
            if before.len() > 0 {
                assert(before[0] == steps[k]);
                assert(before.drop_first() == steps.skip(k + 1));
            }
        }
        match event {
            Err(_) => {
                proof {
                    lemma_first_index_is(steps, stop, k);
                }
                return Err(ExtractError::Markup);
            },
            Ok(XmlEvent::Start(name)) => {
                if same_bytes(name.as_slice(), "w:body".as_bytes()) {
                    proof {
                        lemma_first_index_is(steps, stop, k);
                    }
                    return Ok(());
                }
            },
            Ok(XmlEvent::Decl) => {},
            Ok(XmlEvent::Eof) => {
                proof {
                    lemma_first_index_is(steps, stop, k);
                    assert(pending(*reader) =~= Seq::<Step>::empty());
                }
                return Err(ExtractError::UnexpectedEvent);
            },
            Ok(_) => {
                proof {
                    lemma_first_index_is(steps, stop, k);
                }
                return Err(ExtractError::UnexpectedEvent);
            },
        }
        proof {
            k = k + 1;
        }
    }
}

/// Reads up to and with the start tag of the next table.
pub fn get_first_table(reader: &mut Reader<&[u8]>) -> (r: Result<(), ExtractError>)
    ensures
        r == seek(pending(*old(reader)), "w:tbl".spec_bytes()).outcome,
        pending(*final(reader)) == seek(pending(*old(reader)), "w:tbl".spec_bytes()).rest,
{
    get_element("w:tbl".as_bytes(), reader)
}

/// Reads up to and with the start tag of the next table row.
pub fn get_table_row(reader: &mut Reader<&[u8]>) -> (r: Result<(), ExtractError>)
    ensures
        r == seek(pending(*old(reader)), "w:tr".spec_bytes()).outcome,
        pending(*final(reader)) == seek(pending(*old(reader)), "w:tr".spec_bytes()).rest,
{
    get_element("w:tr".as_bytes(), reader)
}

/// One scan after another: the second goes on where the first has stopped,
/// and is not made where the first has failed.
pub open spec fn then_seek(first: Scan<()>, name: Seq<u8>) -> Scan<()> {
    match first.outcome {
        Ok(_) => seek(first.rest, name),
        Err(e) => failed(e, first.rest),
    }
}

/// The scan for the table that holds the header: to the body, then to the
/// first table in it.
pub open spec fn to_info_table(steps: Seq<Step>) -> Scan<()> {
    then_seek(to_body(steps), "w:tbl".spec_bytes())
}

/// Reads up to the table that holds the header.
pub fn read_to_info_table(reader: &mut Reader<&[u8]>) -> (r: Result<(), ExtractError>)
    ensures
        r == to_info_table(pending(*old(reader))).outcome,
        pending(*final(reader)) == to_info_table(pending(*old(reader))).rest,
{
    match get_body(reader) {
        Ok(_) => get_element("w:tbl".as_bytes(), reader),
        Err(e) => Err(e),
    }
}

/// `std::str::from_utf8`: the text that the bytes encode, where they are valid
/// UTF-8, and nothing where they are not.
#[verifier::external_body]
fn text_from_utf8(bytes: &[u8]) -> (r: Option<String>)
    ensures
        r is Some <==> valid_utf8(bytes@),
        r matches Some(s) ==> s@ == decode_utf8(bytes@),
{
    match std::str::from_utf8(bytes) {
        Ok(s) => Some(s.to_string()),
        Err(_) => None,
    }
}

/// What the step behind a `w:t` start tag gives as text: a text its content,
/// an end tag the empty text.
pub open spec fn text_step(steps: Seq<Step>) -> Scan<Seq<char>> {
    if steps.len() == 0 {
        failed(ExtractError::UnexpectedEvent, Seq::empty())
    } else {
        match steps[0] {
            Step::Text(bytes) => if valid_utf8(bytes) {
                found(decode_utf8(bytes), steps.drop_first())
            } else {
                failed(ExtractError::InvalidText, steps.drop_first())
            },
            Step::End => found(Seq::empty(), steps.drop_first()),
            Step::Failed => failed(ExtractError::Markup, steps.drop_first()),
            _ => failed(ExtractError::UnexpectedEvent, steps.drop_first()),
        }
    }
}

/// The scan for the text of the next run: to the start tag `w:r`, to the
/// start tag `w:t`, then the text behind it.
pub open spec fn run_text_scan(steps: Seq<Step>) -> Scan<Seq<char>> {
    let at = then_seek(seek(steps, "w:r".spec_bytes()), "w:t".spec_bytes());
    match at.outcome {
        Ok(_) => text_step(at.rest),
        Err(e) => failed(e, at.rest),
    }
}

/// The scan for the text of the next cell: to the start tags `w:tc` and
/// `w:p`, then the text of the next run.
pub open spec fn cell_text_scan(steps: Seq<Step>) -> Scan<Seq<char>> {
    let at = then_seek(seek(steps, "w:tc".spec_bytes()), "w:p".spec_bytes());
    match at.outcome {
        Ok(_) => run_text_scan(at.rest),
        Err(e) => failed(e, at.rest),
    }
}

/// The scan for the text of the first cell of the next row.
pub open spec fn row_first_cell_scan(steps: Seq<Step>) -> Scan<Seq<char>> {
    let at = seek(steps, "w:tr".spec_bytes());
    match at.outcome {
        Ok(_) => cell_text_scan(at.rest),
        Err(e) => failed(e, at.rest),
    }
}

/// Whether `r` is the outcome of `scan`, text for text.
pub open spec fn gives(r: Result<String, ExtractError>, scan: Scan<Seq<char>>) -> bool {
    match r {
        Ok(s) => scan.outcome == Ok::<Seq<char>, ExtractError>(s@),
        Err(e) => scan.outcome == Err::<Seq<char>, ExtractError>(e),
    }
}

/// Reads the text of the next run.
pub fn read_run_text(reader: &mut Reader<&[u8]>) -> (r: Result<String, ExtractError>)
    ensures
        gives(r, run_text_scan(pending(*old(reader)))),
        pending(*final(reader)) == run_text_scan(pending(*old(reader))).rest,
{
    match get_element("w:r".as_bytes(), reader) {
        Ok(_) => {},
        Err(e) => {
            return Err(e);
        },
    }
    match get_element("w:t".as_bytes(), reader) {
        Ok(_) => {},
        Err(e) => {
            return Err(e);
        },
    }
    match next_event(reader) {
        Err(_) => Err(ExtractError::Markup),
        Ok(XmlEvent::Text(bytes)) => match text_from_utf8(bytes.as_slice()) {
            Some(s) => Ok(s),
            None => Err(ExtractError::InvalidText),
        },
        Ok(XmlEvent::End) => Ok(String::new()),
        Ok(XmlEvent::Eof) => {
            assert(pending(*reader) =~= Seq::<Step>::empty());
            Err(ExtractError::UnexpectedEvent)
        },
        Ok(_) => Err(ExtractError::UnexpectedEvent),
    }
}

/// Reads the text of the next cell.
pub fn read_cell_text(reader: &mut Reader<&[u8]>) -> (r: Result<String, ExtractError>)
    ensures
        gives(r, cell_text_scan(pending(*old(reader)))),
        pending(*final(reader)) == cell_text_scan(pending(*old(reader))).rest,
{
    match get_element("w:tc".as_bytes(), reader) {
        Ok(_) => {},
        Err(e) => {
            return Err(e);
        },
    }
    match get_element("w:p".as_bytes(), reader) {
        Ok(_) => {},
        Err(e) => {
            return Err(e);
        },
    }
    read_run_text(reader)
}

/// Reads the text of the first cell of the next row.
pub fn read_row_first_cell_text(reader: &mut Reader<&[u8]>) -> (r: Result<String, ExtractError>)
    ensures
        gives(r, row_first_cell_scan(pending(*old(reader)))),
        pending(*final(reader)) == row_first_cell_scan(pending(*old(reader))).rest,
{
    match get_element("w:tr".as_bytes(), reader) {
        Ok(_) => read_cell_text(reader),
        Err(e) => Err(e),
    }
}

/// The text with which the closing section of a report begins.
pub const TEXT_STARTING_WITH: &'static str = "SECTION G:";

/// A scan that has found its start tag has taken at least that step.
pub proof fn lemma_seek_shrinks(steps: Seq<Step>, name: Seq<u8>)
    ensures
        seek(steps, name).rest.len() <= steps.len(),
        seek(steps, name).outcome is Ok ==> seek(steps, name).rest.len() < steps.len(),
{
    lemma_first_index(steps, stops_seek(name));
}

/// A scan that has read the text of a run has taken at least one step.
pub proof fn lemma_run_text_shrinks(steps: Seq<Step>)
    ensures
        run_text_scan(steps).outcome is Ok ==> run_text_scan(steps).rest.len() < steps.len(),
{
    let a = seek(steps, "w:r".spec_bytes());
    lemma_seek_shrinks(steps, "w:r".spec_bytes());
    lemma_seek_shrinks(a.rest, "w:t".spec_bytes());
}

/// The scan for a text that begins with `prefix`: from one `w:t` start tag to
/// the next, until the text behind it begins with `prefix`. An end tag behind
/// the start tag is passed over; anything else there ends the scan.
pub open spec fn to_text_starting_with(steps: Seq<Step>, prefix: Seq<u8>) -> Scan<()>
    decreases steps.len(),
{
    let at = seek(steps, "w:t".spec_bytes());
    if at.outcome is Err {
        failed(at.outcome->Err_0, at.rest)
    } else if at.rest.len() == 0 {
        failed(ExtractError::UnexpectedEvent, Seq::empty())
    } else {
        proof {
            lemma_seek_shrinks(steps, "w:t".spec_bytes());
        }
        match at.rest[0] {
            Step::Text(bytes) => if prefix.is_prefix_of(bytes) {
                found((), at.rest.drop_first())
            } else {
                to_text_starting_with(at.rest.drop_first(), prefix)
            },
            Step::End => to_text_starting_with(at.rest.drop_first(), prefix),
            Step::Failed => failed(ExtractError::Markup, at.rest.drop_first()),
            _ => failed(ExtractError::UnexpectedEvent, at.rest.drop_first()),
        }
    }
}

/// Whether `bytes` begins with `prefix`.
pub fn begins_with_bytes(bytes: &[u8], prefix: &[u8]) -> (r: bool)
    ensures
        r == prefix@.is_prefix_of(bytes@),
{
    if bytes.len() < prefix.len() {
        return false;
    }
    let mut i: usize = 0;
    while i < prefix.len()
        invariant
            prefix.len() <= bytes.len(),
            i <= prefix.len(),
            forall|j: int| 0 <= j < i ==> prefix@[j] == bytes@[j],
        decreases prefix.len() - i,
    {
        if prefix[i] != bytes[i] {
            assert(bytes@.subrange(0, prefix@.len() as int)[i as int] == bytes@[i as int]);
            return false;
        }
        i += 1;
    }
    assert(prefix@ =~= bytes@.subrange(0, prefix@.len() as int));
    true
}

/// Reads up to and with the first text that begins with `starts_with`.
pub fn read_to_text_starting_with(starts_with: &[u8], reader: &mut Reader<&[u8]>) -> (r: Result<
    (),
    ExtractError,
>)
    ensures
        r == to_text_starting_with(pending(*old(reader)), starts_with@).outcome,
        pending(*final(reader)) == to_text_starting_with(pending(*old(reader)), starts_with@).rest,
{
    loop
        invariant
            to_text_starting_with(pending(*reader), starts_with@) == to_text_starting_with(
                pending(*old(reader)),
                starts_with@,
            ),
        decreases pending(*reader).len(),
    {
        let ghost steps = pending(*reader);
        proof {
            lemma_seek_shrinks(steps, "w:t".spec_bytes());
        }
        match get_element("w:t".as_bytes(), reader) {
            Ok(_) => {},
            Err(e) => {
                return Err(e);
            },
        }
        match next_event(reader) {
            Err(_) => {
                return Err(ExtractError::Markup);
            },
            Ok(XmlEvent::Text(bytes)) => {
                if begins_with_bytes(bytes.as_slice(), starts_with) {
                    return Ok(());
                }
            },
            Ok(XmlEvent::End) => {},
            Ok(XmlEvent::Eof) => {
                assert(pending(*reader) =~= Seq::<Step>::empty());
                return Err(ExtractError::UnexpectedEvent);
            },
            Ok(_) => {
                return Err(ExtractError::UnexpectedEvent);
            },
        }
    }
}

/// The scan for the table of the closing section: to the text that begins
/// with `SECTION G:`, then to the next table.
pub open spec fn to_sectiong_table(steps: Seq<Step>) -> Scan<()> {
    then_seek(to_text_starting_with(steps, TEXT_STARTING_WITH.spec_bytes()), "w:tbl".spec_bytes())
}

/// Reads up to the table of the closing section.
pub fn read_to_sectiong_table(reader: &mut Reader<&[u8]>) -> (r: Result<(), ExtractError>)
    ensures
        r == to_sectiong_table(pending(*old(reader))).outcome,
        pending(*final(reader)) == to_sectiong_table(pending(*old(reader))).rest,
{
    match read_to_text_starting_with(TEXT_STARTING_WITH.as_bytes(), reader) {
        Ok(_) => get_element("w:tbl".as_bytes(), reader),
        Err(e) => Err(e),
    }
}

/// The scan for the texts of the runs up to the first that holds `stop`: the
/// texts before that run, one behind the other, behind `sofar`.
pub open spec fn run_text_until(steps: Seq<Step>, stop: Seq<char>, sofar: Seq<char>) -> Scan<
    Seq<char>,
>
    decreases steps.len(),
{
    let run = run_text_scan(steps);
    match run.outcome {
        Err(e) => failed(e, run.rest),
        Ok(s) => if occurs_in(stop, s) {
            found(sofar, run.rest)
        } else {
            proof {
                lemma_run_text_shrinks(steps);
            }
            run_text_until(run.rest, stop, sofar + s)
        },
    }
}

/// Reads the texts of the runs up to the first that holds `stop_str`, and
/// returns those before it as one text.
pub fn read_run_text_until(stop_str: &str, reader: &mut Reader<&[u8]>) -> (r: Result<
    String,
    ExtractError,
>)
    ensures
        gives(r, run_text_until(pending(*old(reader)), stop_str@, Seq::empty())),
        pending(*final(reader)) == run_text_until(
            pending(*old(reader)),
            stop_str@,
            Seq::empty(),
        ).rest,
{
    let mut res = String::new();
    loop
        invariant
            run_text_until(pending(*reader), stop_str@, res@) == run_text_until(
                pending(*old(reader)),
                stop_str@,
                Seq::empty(),
            ),
        decreases pending(*reader).len(),
    {
        proof {
            lemma_run_text_shrinks(pending(*reader));
        }
        let s = match read_run_text(reader) {
            Ok(s) => s,
            Err(e) => {
                return Err(e);
            },
        };
        if contains(s.as_str(), stop_str) {
            return Ok(res);
        }
        res.append(s.as_str());
    }
}

/// The fields of a header.
pub enum HeaderLabel {
    Province,
    District,
    School,
    Subject,
}

/// The field that a cell names, if it names one.
pub open spec fn header_label(text: Seq<char>) -> Option<HeaderLabel> {
    if text == "Province"@ {
        Some(HeaderLabel::Province)
    } else if text == "District"@ || text == "District/Region"@ {
        Some(HeaderLabel::District)
    } else if text == "School"@ {
        Some(HeaderLabel::School)
    } else if text == "Subject"@ {
        Some(HeaderLabel::Subject)
    } else {
        None
    }
}

/// The draft with one field set.
pub open spec fn with_field(d: HeaderDraft, label: HeaderLabel, value: Seq<char>) -> HeaderDraft {
    match label {
        HeaderLabel::Province => HeaderDraft { province: Some(value), ..d },
        HeaderLabel::District => HeaderDraft { district: Some(value), ..d },
        HeaderLabel::School => HeaderDraft { school: Some(value), ..d },
        HeaderLabel::Subject => HeaderDraft { subject: Some(Some(value)), ..d },
    }
}

/// What a cell does to the draft: where it names a field, the text of the
/// next cell is read and becomes the value of the field; any other cell
/// changes nothing and reads nothing.
pub open spec fn apply_label(d: HeaderDraft, text: Seq<char>, steps: Seq<Step>) -> Scan<
    HeaderDraft,
> {
    match header_label(text) {
        None => found(d, steps),
        Some(label) => {
            let cell = cell_text_scan(steps);
            match cell.outcome {
                Ok(value) => found(with_field(d, label, value), cell.rest),
                Err(e) => failed(e, cell.rest),
            }
        },
    }
}

/// One round of the scan for the header: the first cell of the next row is
/// read and applied to the draft, then the cell behind it.
pub open spec fn header_round(d: HeaderDraft, steps: Seq<Step>) -> Scan<HeaderDraft> {
    let first = row_first_cell_scan(steps);
    match first.outcome {
        Err(e) => failed(e, first.rest),
        Ok(text) => {
            let one = apply_label(d, text, first.rest);
            match one.outcome {
                Err(e) => failed(e, one.rest),
                Ok(d1) => {
                    let second = cell_text_scan(one.rest);
                    match second.outcome {
                        Err(e) => failed(e, second.rest),
                        Ok(other) => apply_label(d1, other, second.rest),
                    }
                },
            }
        },
    }
}

/// The draft after `rounds` rounds: behind the thirteenth round a report that
/// has shown province, district and school but no subject counts as having
/// none.
pub open spec fn settled(d: HeaderDraft, rounds: nat) -> HeaderDraft {
    if d.has_core() && d.subject is None && rounds > 13 {
        HeaderDraft { subject: Some(None), ..d }
    } else {
        d
    }
}

/// The scan for the header, from a draft and the number of rounds made so
/// far: round after round until the draft is complete. It fails with
/// `MalformedScan` where province, district or school is still missing after
/// the fifteenth round.
pub open spec fn header_scan(d: HeaderDraft, steps: Seq<Step>, rounds: nat) -> Scan<
    HeaderInfoView,
>
    decreases 15 - rounds,
{
    let round = header_round(d, steps);
    match round.outcome {
        Err(e) => failed(e, round.rest),
        Ok(d1) => {
            let n = rounds + 1;
            if n > 14 && !d1.has_core() {
                failed(
                    ExtractError::MalformedScan { field: d1.first_missing(), position: n as u8 },
                    round.rest,
                )
            } else {
                let d2 = settled(d1, n as nat);
                if d2.complete() {
                    found(d2.built(), round.rest)
                } else {
                    header_scan(d2, round.rest, n as nat)
                }
            }
        },
    }
}

/// Applies a cell to the builder.
fn apply_header_label(builder: &mut HeaderInfoBuilder, text: &str, reader: &mut Reader<&[u8]>) -> (r:
    Result<(), ExtractError>)
    ensures
        match r {
            Ok(_) => apply_label(old(builder)@, text@, pending(*old(reader))).outcome == Ok::<
                HeaderDraft,
                ExtractError,
            >(final(builder)@),
            Err(e) => apply_label(old(builder)@, text@, pending(*old(reader))).outcome == Err::<
                HeaderDraft,
                ExtractError,
            >(e),
        },
        pending(*final(reader)) == apply_label(old(builder)@, text@, pending(*old(reader))).rest,
{
    if same_text(text, "Province") {
        match read_cell_text(reader) {
            Ok(value) => {
                builder.province(value);
                Ok(())
            },
            Err(e) => Err(e),
        }
    } else if same_text(text, "District") || same_text(text, "District/Region") {
        match read_cell_text(reader) {
            Ok(value) => {
                builder.district(value);
                Ok(())
            },
            Err(e) => Err(e),
        }
    } else if same_text(text, "School") {
        match read_cell_text(reader) {
            Ok(value) => {
                builder.school(value);
                Ok(())
            },
            Err(e) => Err(e),
        }
    } else if same_text(text, "Subject") {
        match read_cell_text(reader) {
            Ok(value) => {
                builder.subject(Some(value));
                Ok(())
            },
            Err(e) => Err(e),
        }
    } else {
        Ok(())
    }
}

/// Makes one round of the scan for the header.
fn read_header_round(builder: &mut HeaderInfoBuilder, reader: &mut Reader<&[u8]>) -> (r: Result<
    (),
    ExtractError,
>)
    ensures
        match r {
            Ok(_) => header_round(old(builder)@, pending(*old(reader))).outcome == Ok::<
                HeaderDraft,
                ExtractError,
            >(final(builder)@),
            Err(e) => header_round(old(builder)@, pending(*old(reader))).outcome == Err::<
                HeaderDraft,
                ExtractError,
            >(e),
        },
        pending(*final(reader)) == header_round(old(builder)@, pending(*old(reader))).rest,
{
    let first = match read_row_first_cell_text(reader) {
        Ok(text) => text,
        Err(e) => {
            return Err(e);
        },
    };
    match apply_header_label(builder, first.as_str(), reader) {
        Ok(_) => {},
        Err(e) => {
            return Err(e);
        },
    }
    let second = match read_cell_text(reader) {
        Ok(text) => text,
        Err(e) => {
            return Err(e);
        },
    };
    apply_header_label(builder, second.as_str(), reader)
}

/// Whether `r` is the outcome of `scan`, header for header.
pub open spec fn gives_header(r: Result<HeaderInfo, ExtractError>, scan: Scan<HeaderInfoView>) -> bool {
    match r {
        Ok(h) => scan.outcome == Ok::<HeaderInfoView, ExtractError>(h@),
        Err(e) => scan.outcome == Err::<HeaderInfoView, ExtractError>(e),
    }
}

/// Reads the header of a report from the rows of its header table.
///
/// Row after row, each of the first two cells that names a field takes the
/// text of the cell behind it as the value of the field. The scan ends when
/// all fields are there; a report that has shown no subject by the fourteenth
/// row counts as having none. It fails with `MalformedScan` where province,
/// district or school is still missing after fifteen rows.
pub fn read_header_info(reader: &mut Reader<&[u8]>) -> (r: Result<HeaderInfo, ExtractError>)
    ensures
        gives_header(r, header_scan(HeaderDraft::empty(), pending(*old(reader)), 0)),
        pending(*final(reader)) == header_scan(HeaderDraft::empty(), pending(*old(reader)), 0).rest,
{
    let mut results = HeaderInfoBuilder::create_empty();
    let mut protection_counter: u8 = 0;
    loop
        invariant
            protection_counter < 15,
            header_scan(results@, pending(*reader), protection_counter as nat) == header_scan(
                HeaderDraft::empty(),
                pending(*old(reader)),
                0,
            ),
        decreases 15 - protection_counter,
    {
        protection_counter += 1;
        match read_header_round(&mut results, reader) {
            Ok(_) => {},
            Err(e) => {
                return Err(e);
            },
        }
        if protection_counter > 14 && !results.has_core() {
            return Err(
                ExtractError::MalformedScan {
                    field: results.first_missing(),
                    position: protection_counter,
                },
            );
        }
        if results.has_core() && results.subject.is_none() && protection_counter > 13 {
            results.subject(None);
        }
        match results.build() {
            Some(info) => {
                return Ok(info);
            },
            None => {},
        }
    }
}

/// One round of the scan for the closing section: the first cell of the next
/// row is read; where it names one of the two fields, the text of the cell
/// behind it becomes the value of the field.
pub open spec fn section_round(d: SectionDraft, steps: Seq<Step>) -> Scan<SectionDraft> {
    let first = row_first_cell_scan(steps);
    match first.outcome {
        Err(e) => failed(e, first.rest),
        Ok(text) => if text == "AREAS THAT REQUIRE INTERVENTION AND SUPPORT:"@ {
            let cell = cell_text_scan(first.rest);
            match cell.outcome {
                Ok(value) => found(SectionDraft { areas: Some(value), ..d }, cell.rest),
                Err(e) => failed(e, cell.rest),
            }
        } else if text == "RECOMMENDATIONS:"@ {
            let cell = cell_text_scan(first.rest);
            match cell.outcome {
                Ok(value) => found(SectionDraft { recommendations: Some(value), ..d }, cell.rest),
                Err(e) => failed(e, cell.rest),
            }
        } else {
            found(d, first.rest)
        },
    }
}

/// The scan for the fields of the closing section, from a draft and the
/// number of rounds made so far: round after round until both fields are
/// there. It fails with `MalformedScan` where one is still missing after the
/// fourth round.
pub open spec fn section_scan(d: SectionDraft, steps: Seq<Step>, rounds: nat) -> Scan<
    SectionGView,
>
    decreases 4 - rounds,
{
    let round = section_round(d, steps);
    match round.outcome {
        Err(e) => failed(e, round.rest),
        Ok(d1) => {
            let n = rounds + 1;
            if d1.complete() {
                found(d1.built(), round.rest)
            } else if n > 3 {
                failed(
                    ExtractError::MalformedScan { field: d1.first_missing(), position: n as u8 },
                    round.rest,
                )
            } else {
                section_scan(d1, round.rest, n as nat)
            }
        },
    }
}

/// The scan for the closing section: to its table, then for its fields.
pub open spec fn sectiong_scan(steps: Seq<Step>) -> Scan<SectionGView> {
    let at = to_sectiong_table(steps);
    match at.outcome {
        Ok(_) => section_scan(SectionDraft::empty(), at.rest, 0),
        Err(e) => failed(e, at.rest),
    }
}

/// Makes one round of the scan for the closing section.
fn read_section_round(builder: &mut SectionGBuilder, reader: &mut Reader<&[u8]>) -> (r: Result<
    (),
    ExtractError,
>)
    ensures
        match r {
            Ok(_) => section_round(old(builder)@, pending(*old(reader))).outcome == Ok::<
                SectionDraft,
                ExtractError,
            >(final(builder)@),
            Err(e) => section_round(old(builder)@, pending(*old(reader))).outcome == Err::<
                SectionDraft,
                ExtractError,
            >(e),
        },
        pending(*final(reader)) == section_round(old(builder)@, pending(*old(reader))).rest,
{
    let first = match read_row_first_cell_text(reader) {
        Ok(text) => text,
        Err(e) => {
            return Err(e);
        },
    };
    if same_text(first.as_str(), "AREAS THAT REQUIRE INTERVENTION AND SUPPORT:") {
        match read_cell_text(reader) {
            Ok(value) => {
                builder.areas_that_require_intervention_and_support(value);
                Ok(())
            },
            Err(e) => Err(e),
        }
    } else if same_text(first.as_str(), "RECOMMENDATIONS:") {
        match read_cell_text(reader) {
            Ok(value) => {
                builder.recommendations(value);
                Ok(())
            },
            Err(e) => Err(e),
        }
    } else {
        Ok(())
    }
}

/// Whether `r` is the outcome of `scan`, section for section.
pub open spec fn gives_section(r: Result<SectionG, ExtractError>, scan: Scan<SectionGView>) -> bool {
    match r {
        Ok(s) => scan.outcome == Ok::<SectionGView, ExtractError>(s@),
        Err(e) => scan.outcome == Err::<SectionGView, ExtractError>(e),
    }
}

/// Reads the closing section of a report: the areas that require intervention
/// and support, and the recommendations.
///
/// The reader is taken to the table of the section; then, row after row, a
/// first cell that names one of the two fields takes the text of the cell
/// behind it as the value of the field. The scan ends when both are there, and
/// fails with `MalformedScan` where one is still missing after four rows.
pub fn read_sectiong_info(reader: &mut Reader<&[u8]>) -> (r: Result<SectionG, ExtractError>)
    ensures
        gives_section(r, sectiong_scan(pending(*old(reader)))),
        pending(*final(reader)) == sectiong_scan(pending(*old(reader))).rest,
{
    let mut results = SectionGBuilder::create_empty();
    let mut protection_counter: u8 = 0;
    match read_to_sectiong_table(reader) {
        Ok(_) => {},
        Err(e) => {
            return Err(e);
        },
    }
    loop
        invariant
            protection_counter < 4,
            section_scan(results@, pending(*reader), protection_counter as nat) == sectiong_scan(
                pending(*old(reader)),
            ),
        decreases 4 - protection_counter,
    {
        protection_counter += 1;
        match read_section_round(&mut results, reader) {
            Ok(_) => {},
            Err(e) => {
                return Err(e);
            },
        }
        match results.build() {
            Some(section) => {
                return Ok(section);
            },
            None => {},
        }
        if protection_counter > 3 {
            return Err(
                ExtractError::MalformedScan {
                    field: results.first_missing(),
                    position: protection_counter,
                },
            );
        }
    }
}

/// The scan of a whole report: to the header table, for the header, then for
/// the closing section.
pub open spec fn report_scan(steps: Seq<Step>) -> Scan<(HeaderInfoView, SectionGView)> {
    let at = to_info_table(steps);
    match at.outcome {
        Err(e) => failed(e, at.rest),
        Ok(_) => {
            let header = header_scan(HeaderDraft::empty(), at.rest, 0);
            match header.outcome {
                Err(e) => failed(e, header.rest),
                Ok(h) => {
                    let section = sectiong_scan(header.rest);
                    match section.outcome {
                        Err(e) => failed(e, section.rest),
                        Ok(g) => found((h, g), section.rest),
                    }
                },
            }
        },
    }
}

/// Whether the step is a text that names a header field.
pub open spec fn names_field(step: Step) -> bool {
    match step {
        Step::Text(bytes) => valid_utf8(bytes) && header_label(decode_utf8(bytes)) is Some,
        _ => false,
    }
}

/// Whether no text among the steps names a header field.
pub open spec fn no_header_labels(steps: Seq<Step>) -> bool {
    forall|i: int| 0 <= i < steps.len() ==> !names_field(#[trigger] steps[i])
}

/// Whether no step is the start tag of a table.
pub open spec fn no_table(steps: Seq<Step>) -> bool {
    forall|i: int| 0 <= i < steps.len() ==> #[trigger] steps[i] != Step::Start("w:tbl".spec_bytes())
}

/// What is left behind some of the steps names no header field either.
pub proof fn lemma_skip_keeps(steps: Seq<Step>, n: int)
    requires
        no_header_labels(steps),
        0 <= n <= steps.len(),
    ensures
        no_header_labels(steps.skip(n)),
{
    assert forall|i: int| 0 <= i < steps.skip(n).len() implies !names_field(
        #[trigger] steps.skip(n)[i],
    ) by {
        assert(steps.skip(n)[i] == steps[i + n]);
    }
}

/// What a scan for a start tag leaves names no header field either.
pub proof fn lemma_seek_keeps(steps: Seq<Step>, name: Seq<u8>)
    requires
        no_header_labels(steps),
    ensures
        no_header_labels(seek(steps, name).rest),
{
    lemma_first_index(steps, stops_seek(name));
    let k = first_index(steps, stops_seek(name));
    if k < steps.len() {
        lemma_skip_keeps(steps, k + 1);
    }
}

/// The empty text names no header field.
pub proof fn lemma_empty_names_nothing()
    ensures
        header_label(Seq::empty()) is None,
{
    reveal_strlit("Province");
    reveal_strlit("District");
    reveal_strlit("District/Region");
    reveal_strlit("School");
    reveal_strlit("Subject");
    let e = Seq::<char>::empty();
    assert("Province"@.len() != e.len());
    assert("District"@.len() != e.len());
    assert("District/Region"@.len() != e.len());
    assert("School"@.len() != e.len());
    assert("Subject"@.len() != e.len());
}

/// Among steps that name no header field, the text of a cell names none, and
/// what the scan leaves names none either.
pub proof fn lemma_cell_text_plain(steps: Seq<Step>)
    requires
        no_header_labels(steps),
    ensures
        no_header_labels(cell_text_scan(steps).rest),
        cell_text_scan(steps).outcome matches Ok(text) ==> header_label(text) is None,
{
    lemma_empty_names_nothing();
    let a = seek(steps, "w:tc".spec_bytes());
    lemma_seek_keeps(steps, "w:tc".spec_bytes());
    let b = seek(a.rest, "w:p".spec_bytes());
    lemma_seek_keeps(a.rest, "w:p".spec_bytes());
    let c = seek(b.rest, "w:r".spec_bytes());
    lemma_seek_keeps(b.rest, "w:r".spec_bytes());
    let d = seek(c.rest, "w:t".spec_bytes());
    lemma_seek_keeps(c.rest, "w:t".spec_bytes());
    if d.rest.len() > 0 {
        lemma_skip_keeps(d.rest, 1);
        assert(d.rest.skip(1) == d.rest.drop_first());
        assert(!names_field(d.rest[0]));
    }
}

/// Among steps that name no header field, a round of the scan for the header
/// leaves the draft as it was, and what it leaves names none either.
pub proof fn lemma_round_plain(d: HeaderDraft, steps: Seq<Step>)
    requires
        no_header_labels(steps),
    ensures
        no_header_labels(header_round(d, steps).rest),
        header_round(d, steps).outcome matches Ok(d1) ==> d1 == d,
{
    let at = seek(steps, "w:tr".spec_bytes());
    lemma_seek_keeps(steps, "w:tr".spec_bytes());
    lemma_cell_text_plain(at.rest);
    let first = row_first_cell_scan(steps);
    if first.outcome is Ok {
        lemma_cell_text_plain(first.rest);
    }
}

/// Among steps that name no header field, the scan for the header fails as
/// long as province, district or school is missing in the draft.
pub proof fn lemma_header_scan_fails(d: HeaderDraft, steps: Seq<Step>, rounds: nat)
    requires
        no_header_labels(steps),
        !d.has_core(),
        rounds < 15,
    ensures
        header_scan(d, steps, rounds).outcome is Err,
    decreases 15 - rounds,
{
    lemma_round_plain(d, steps);
    let round = header_round(d, steps);
    if round.outcome is Ok && rounds + 1 <= 14 {
        lemma_header_scan_fails(d, round.rest, rounds + 1);
    }
}

/// A document whose texts name no header field gives no record: the scan of
/// it fails, and the failure is that of this document alone.
pub proof fn lemma_report_without_labels(steps: Seq<Step>)
    requires
        no_header_labels(steps),
    ensures
        report_scan(steps).outcome is Err,
{
    lemma_first_index(steps, stops_body());
    let k = first_index(steps, stops_body());
    if k < steps.len() {
        lemma_skip_keeps(steps, k + 1);
    }
    let body = to_body(steps);
    lemma_seek_keeps(body.rest, "w:tbl".spec_bytes());
    let at = to_info_table(steps);
    if at.outcome is Ok {
        lemma_header_scan_fails(HeaderDraft::empty(), at.rest, 0);
    }
}

/// A document without any table gives no record.
pub proof fn lemma_report_without_table(steps: Seq<Step>)
    requires
        no_table(steps),
    ensures
        report_scan(steps).outcome is Err,
{
    lemma_first_index(steps, stops_body());
    let body = to_body(steps);
    if body.outcome is Ok {
        let k = first_index(steps, stops_body());
        let rest = steps.skip(k + 1);
        lemma_first_index(rest, stops_seek("w:tbl".spec_bytes()));
        let j = first_index(rest, stops_seek("w:tbl".spec_bytes()));
        if j < rest.len() {
            assert(rest[j] == steps[j + k + 1]);
        }
    }
}

/// The record of the document with markup `doc` and file name `file`, or the
/// reason why it has none.
pub open spec fn report_of(doc: Seq<u8>, file: Seq<char>) -> Result<
    ExtractedInfoView,
    ExtractError,
> {
    match report_scan(steps_of(doc)).outcome {
        Ok(parts) => Ok(report_record(parts.0, parts.1, file)),
        Err(e) => Err(e),
    }
}

/// The record that a header and a closing section make for the file `file`.
pub open spec fn report_record(
    h: HeaderInfoView,
    g: SectionGView,
    file: Seq<char>,
) -> ExtractedInfoView {
    ExtractedInfoView {
        header: fields_of(h),
        body: seq![g.areas, g.recommendations],
        file,
    }
}

/// Whether `r` is the record that `scan` comes to, for the file `file`.
pub open spec fn gives_record(
    r: Result<ExtractedInfo, ExtractError>,
    scan: Scan<(HeaderInfoView, SectionGView)>,
    file: Seq<char>,
) -> bool {
    match r {
        Ok(info) => scan.outcome is Ok && info@ == report_record(
            scan.outcome->Ok_0.0,
            scan.outcome->Ok_0.1,
            file,
        ),
        Err(e) => scan.outcome == Err::<(HeaderInfoView, SectionGView), ExtractError>(e),
    }
}

/// Reads the record of a report from a reader that stands at the head of its
/// markup.
pub fn extract_from(reader: &mut Reader<&[u8]>, file: String) -> (r: Result<
    ExtractedInfo,
    ExtractError,
>)
    ensures
        gives_record(r, report_scan(pending(*old(reader))), file@),
        pending(*final(reader)) == report_scan(pending(*old(reader))).rest,
{
    match read_to_info_table(reader) {
        Ok(_) => {},
        Err(e) => {
            return Err(e);
        },
    }
    let header = match read_header_info(reader) {
        Ok(h) => h,
        Err(e) => {
            return Err(e);
        },
    };
    let sectiong = match read_sectiong_info(reader) {
        Ok(g) => g,
        Err(e) => {
            return Err(e);
        },
    };
    Ok(ExtractedInfo::from_parts(header, sectiong, file))
}

/// The steps that a reader hands out over the bytes `doc`, from their head,
/// when it trims the white space around texts.
pub uninterp spec fn steps_of(doc: Seq<u8>) -> Seq<Step>;

/// `Reader::from_reader` on a slice of bytes, with `trim_text` switched on in
/// the reader's configuration: a reader that has all the steps of `doc`
/// pending.
#[verifier::external_body]
fn open_reader(doc: &[u8]) -> (r: Reader<&[u8]>)
    ensures
        pending(r) == steps_of(doc@),
{
    let mut reader = Reader::from_reader(doc);
    reader.config_mut().trim_text(true);
    reader
}

/// Reads the record of a report from the bytes of its markup.
pub fn extract_one(doc: &[u8], file: String) -> (r: Result<ExtractedInfo, ExtractError>)
    ensures
        gives_record(r, report_scan(steps_of(doc@)), file@),
        match r {
            Ok(info) => report_of(doc@, file@) == Ok::<ExtractedInfoView, ExtractError>(info@),
            Err(e) => report_of(doc@, file@) == Err::<ExtractedInfoView, ExtractError>(e),
        },
{
    let mut reader = open_reader(doc);
    extract_from(&mut reader, file)
}

} // verus!
