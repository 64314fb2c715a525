//! The record that one document gives, and the rows written for it.

use vstd::prelude::*;
use crate::block::{BlockView, DocBlocks};
use crate::error::ExtractError;
use crate::header::{locate_header, located_header, HeaderFields, HeaderFieldsView, HeaderTerms};
use crate::section::{locate_sections, section_values};
use crate::term::Term;

verus! {

/// The kind of report that a document is.
#[derive(Clone, Copy, Debug, PartialEq, Eq, Structural)]
pub enum DocType {
    Phase2District,
    Oral,
}

impl Default for DocType {
    fn default() -> (r: DocType)
        ensures
            r == DocType::Phase2District,
    {
        DocType::Phase2District
    }
}

/// The sections of a report as named fields. The two that a report may lack
/// are optional.
#[derive(Debug)]
pub struct ExtractInfo {
    pub identification_of_irregularities: Option<String>,
    pub areas_that_require_intervention_and_support: String,
    pub recommendations: String,
    pub areas_of_good_practice_innovation: Option<String>,
}

/// What one document gives: its header fields, the texts of its sections in
/// the order of the section terms, and the name of the file it came from.
#[derive(Debug)]
pub struct ExtractedInfo {
    pub header: HeaderFields,
    pub body: Vec<String>,
    pub file: String,
}

/// A record as plain text.
pub struct ExtractedInfoView {
    pub header: HeaderFieldsView,
    pub body: Seq<Seq<char>>,
    pub file: Seq<char>,
}

impl View for ExtractedInfo {
    type V = ExtractedInfoView;

    open spec fn view(&self) -> ExtractedInfoView {
        ExtractedInfoView { header: self.header@, body: self.body.deep_view(), file: self.file@ }
    }
}

/// The four header values in their fixed order.
pub open spec fn header_columns(h: HeaderFieldsView) -> Seq<Seq<char>> {
    seq![h.province, h.district, h.school, h.subject]
}

/// The row of a record: the header values in their fixed order, then the
/// section texts in their order, then the file name.
pub open spec fn row_of(info: ExtractedInfoView) -> Seq<Seq<char>> {
    (header_columns(info.header) + info.body).push(info.file)
}

/// The names of the header columns, in their fixed order.
pub open spec fn header_names() -> Seq<Seq<char>> {
    seq!["Province"@, "District"@, "School"@, "Subject"@]
}

/// The canonical spellings of `terms`, in order.
pub open spec fn main_texts(terms: Seq<Seq<Seq<char>>>) -> Seq<Seq<char>> {
    Seq::new(terms.len(), |i: int| terms[i][0])
}

/// The row of column names that goes with the rows of the records: the names
/// of the header columns, then the canonical spelling of each section term,
/// then `File`.
pub open spec fn names_row(terms: Seq<Seq<Seq<char>>>) -> Seq<Seq<char>> {
    (header_names() + main_texts(terms)).push("File"@)
}

impl ExtractedInfo {
    /// Puts a record together from its parts.
    pub fn assemble(header: HeaderFields, body: Vec<String>, file: String) -> (r: ExtractedInfo)
        ensures
            r@.header == header@,
            r@.body == body.deep_view(),
            r@.file == file@,
    {
        ExtractedInfo { header, body, file }
    }

    /// The row of the record.
    pub fn as_record(&self) -> (r: Vec<String>)
        ensures
            r.deep_view() == row_of(self@),
    {
        let mut r: Vec<String> = Vec::new();
        r.push(self.header.province.clone());
        r.push(self.header.district.clone());
        r.push(self.header.school.clone());
        r.push(self.header.subject.clone());
        let ghost head = header_columns(self@.header);
        assert(r.deep_view() =~= head);
        let mut i: usize = 0;
        while i < self.body.len()
            invariant
                i <= self.body.len(),
                head == header_columns(self@.header),
                r.deep_view() == head + self.body.deep_view().take(i as int),
            decreases self.body.len() - i,
        {
            let ghost before = r.deep_view();
            let text = self.body[i].clone();
            r.push(text);
            proof {
                assert(r.deep_view() =~= before.push(text@));
                assert(self.body.deep_view().take(i + 1) == self.body.deep_view().take(
                    i as int,
                ).push(text@));
            }
            i += 1;
        }
        let ghost before = r.deep_view();
        let file = self.file.clone();
        r.push(file);
        proof {
            assert(self.body.deep_view().take(self.body.len() as int) == self.body.deep_view());
            assert(r.deep_view() =~= before.push(file@));
        }
        r
    }

    /// The row of the record.
    pub fn into_record(self) -> (r: Vec<String>)
        ensures
            r.deep_view() == row_of(self@),
    {
        self.as_record()
    }

    /// The row of column names that goes with the rows of the records.
    pub fn header_record(terms: &Vec<Term>) -> (r: Vec<&'static str>)
        ensures
            r.deep_view() == names_row(terms.deep_view()),
    {
        let mut r: Vec<&'static str> = Vec::new();
        r.push("Province");
        r.push("District");
        r.push("School");
        r.push("Subject");
        assert(r.deep_view() =~= header_names());
        let ghost mains = main_texts(terms.deep_view());
        let mut i: usize = 0;
        while i < terms.len()
            invariant
                i <= terms.len(),
                mains == main_texts(terms.deep_view()),
                r.deep_view() == header_names() + mains.take(i as int),
            decreases terms.len() - i,
        {
            let ghost before = r.deep_view();
            let name = terms[i].as_main();
            r.push(name);
            proof {
                assert(r.deep_view() =~= before.push(name@));
                assert(mains.take(i + 1) == mains.take(i as int).push(name@));
            }
            i += 1;
        }
        let ghost before = r.deep_view();
        r.push("File");
        proof {
            assert(mains.take(terms.len() as int) == mains);
            assert(r.deep_view() =~= before.push("File"@));
        }
        r
    }
}

/// The row of a record and the row of column names have the same number of
/// columns where the record has one text for each section term, and both are
/// four more than the sections, and one more for the file.
pub proof fn lemma_rows_match(info: ExtractedInfoView, terms: Seq<Seq<Seq<char>>>)
    requires
        info.body.len() == terms.len(),
    ensures
        row_of(info).len() == names_row(terms).len(),
        row_of(info).len() == terms.len() + 5,
        row_of(info).last() == info.file,
        names_row(terms).last() == "File"@,
{
}

/// The record of a document: its header and the texts of its sections, with
/// the name of its file; or the reason why it has no header.
pub open spec fn extracted(
    blocks: Seq<BlockView>,
    header: Seq<Seq<Seq<char>>>,
    sections: Seq<Seq<Seq<char>>>,
    file: Seq<char>,
) -> Result<ExtractedInfoView, ExtractError> {
    match located_header(blocks, header) {
        Ok(h) => Ok(
            ExtractedInfoView { header: h, body: section_values(blocks, sections), file },
        ),
        Err(e) => Err(e),
    }
}

/// Extracts the record of one document from its blocks.
///
/// Fails exactly when the header is not found: a section that is not found
/// is empty in the record.
pub fn extract(blocks: &DocBlocks, header: &HeaderTerms, sections: &Vec<Term>, file: String) -> (r:
    Result<ExtractedInfo, ExtractError>)
    ensures
        match r {
            Ok(info) => extracted(blocks@, header@, sections.deep_view(), file@) == Ok::<
                ExtractedInfoView,
                ExtractError,
            >(info@),
            Err(e) => extracted(blocks@, header@, sections.deep_view(), file@) == Err::<
                ExtractedInfoView,
                ExtractError,
            >(e),
        },
{
    match locate_header(blocks, header) {
        Ok(fields) => {
            let body = locate_sections(blocks, sections);
            Ok(ExtractedInfo::assemble(fields, body, file))
        },
        Err(e) => Err(e),
    }
}

/// One document of a run: its blocks and the name of its file.
#[derive(Debug)]
pub struct Document {
    pub blocks: DocBlocks,
    pub file: String,
}

/// A document that gave no record, with the reason.
#[derive(Debug)]
pub struct Skipped {
    pub file: String,
    pub reason: ExtractError,
}

/// What a run over several documents gives: the rows of the documents that
/// gave a record, and the documents that gave none.
#[derive(Debug)]
pub struct Report {
    pub rows: Vec<Vec<String>>,
    pub skipped: Vec<Skipped>,
}

/// A document as plain text.
pub struct DocumentView {
    pub blocks: Seq<BlockView>,
    pub file: Seq<char>,
}

impl View for Document {
    type V = DocumentView;

    open spec fn view(&self) -> DocumentView {
        DocumentView { blocks: self.blocks@, file: self.file@ }
    }
}

/// The documents as plain text.
pub open spec fn documents_view(docs: Seq<Document>) -> Seq<DocumentView> {
    Seq::new(docs.len(), |i: int| docs[i]@)
}

/// The skipped documents as plain text.
pub open spec fn skipped_view(skipped: Seq<Skipped>) -> Seq<(Seq<char>, ExtractError)> {
    Seq::new(skipped.len(), |i: int| (skipped[i].file@, skipped[i].reason))
}

/// The rows of a run: one for each document that gives a record, in the
/// order of the documents.
pub open spec fn run_rows(
    docs: Seq<DocumentView>,
    header: Seq<Seq<Seq<char>>>,
    sections: Seq<Seq<Seq<char>>>,
) -> Seq<Seq<Seq<char>>>
    decreases docs.len(),
{
    if docs.len() == 0 {
        Seq::empty()
    } else {
        let before = run_rows(docs.drop_last(), header, sections);
        match extracted(docs.last().blocks, header, sections, docs.last().file) {
            Ok(info) => before.push(row_of(info)),
            Err(_) => before,
        }
    }
}

/// The documents of a run that give no record, each with the reason, in the
/// order of the documents.
pub open spec fn run_skipped(
    docs: Seq<DocumentView>,
    header: Seq<Seq<Seq<char>>>,
    sections: Seq<Seq<Seq<char>>>,
) -> Seq<(Seq<char>, ExtractError)>
    decreases docs.len(),
{
    if docs.len() == 0 {
        Seq::empty()
    } else {
        let before = run_skipped(docs.drop_last(), header, sections);
        match extracted(docs.last().blocks, header, sections, docs.last().file) {
            Ok(_) => before,
            Err(e) => before.push((docs.last().file, e)),
        }
    }
}

/// Extracts the records of several documents. A document that gives no
/// record is set aside with the reason, and the run goes on with the next.
pub fn extract_all(docs: &Vec<Document>, header: &HeaderTerms, sections: &Vec<Term>) -> (r: Report)
    ensures
        r.rows.deep_view() == run_rows(documents_view(docs@), header@, sections.deep_view()),
        skipped_view(r.skipped@) == run_skipped(
            documents_view(docs@),
            header@,
            sections.deep_view(),
        ),
{
    let mut rows: Vec<Vec<String>> = Vec::new();
    let mut skipped: Vec<Skipped> = Vec::new();
    let ghost all = documents_view(docs@);
    let mut i: usize = 0;
    proof {
        assert(all.take(0) == Seq::<DocumentView>::empty());
        assert(rows.deep_view() =~= Seq::<Seq<Seq<char>>>::empty());
        assert(skipped_view(skipped@) =~= Seq::<(Seq<char>, ExtractError)>::empty());
    }
    while i < docs.len()
        invariant
            i <= docs.len(),
            all == documents_view(docs@),
            rows.deep_view() == run_rows(all.take(i as int), header@, sections.deep_view()),
            skipped_view(skipped@) == run_skipped(
                all.take(i as int),
                header@,
                sections.deep_view(),
            ),
        decreases docs.len() - i,
    {
        let ghost rows_before = rows.deep_view();
        let ghost skipped_before = skipped_view(skipped@);
        proof {
            let upto = all.take(i + 1);
            assert(upto.drop_last() == all.take(i as int));
            assert(upto.last() == docs@[i as int]@);
        }
        let doc = &docs[i];
        match extract(&doc.blocks, header, sections, doc.file.clone()) {
            Ok(info) => {
                let row = info.into_record();
                rows.push(row);
                assert(rows.deep_view() =~= rows_before.push(row_of(info@)));
            },
            Err(reason) => {
                skipped.push(Skipped { file: doc.file.clone(), reason });
                assert(skipped_view(skipped@) =~= skipped_before.push((doc.file@, reason)));
            },
        }
        i += 1;
    }
    proof {
        assert(all.take(docs.len() as int) == all);
    }
    Report { rows, skipped }
}

/// Every document of a run ends up in exactly one place: among the rows or
/// among the skipped.
pub proof fn lemma_run_accounts_for_all(
    docs: Seq<DocumentView>,
    header: Seq<Seq<Seq<char>>>,
    sections: Seq<Seq<Seq<char>>>,
)
    ensures
        run_rows(docs, header, sections).len() + run_skipped(docs, header, sections).len()
            == docs.len(),
    decreases docs.len(),
{
    if docs.len() > 0 {
        lemma_run_accounts_for_all(docs.drop_last(), header, sections);
    }
}

/// A document that gives no record is set aside, and the documents before
/// it keep their rows: the failure is that of the one document alone.
pub proof fn lemma_run_goes_on(
    docs: Seq<DocumentView>,
    header: Seq<Seq<Seq<char>>>,
    sections: Seq<Seq<Seq<char>>>,
)
    requires
        docs.len() > 0,
        extracted(docs.last().blocks, header, sections, docs.last().file) is Err,
    ensures
        run_rows(docs, header, sections) == run_rows(docs.drop_last(), header, sections),
        run_skipped(docs, header, sections) == run_skipped(
            docs.drop_last(),
            header,
            sections,
        ).push((docs.last().file, ExtractError::HeaderNotFound)),
{
}

} // verus!
