//! A document on its way through a run: named, then loaded, then parsed. Each
//! state is a type of its own, so that a step can only be taken from the state
//! before it, and a document is given up by letting its value go.

use vstd::prelude::*;
use crate::block::{BlockView, DocBlocks};
use crate::content::{build, built, Node};
use crate::error::ExtractError;
use crate::header::HeaderTerms;
use crate::record::{
    extract, extracted, row_of, skipped_view, ExtractedInfo, ExtractedInfoView, Report, Skipped,
};
use crate::stream::{extract_one, gives_record, report_of, report_scan, steps_of};
use crate::term::Term;

verus! {

/// A document of which only the name of the file is known.
#[derive(Debug)]
pub struct Unloaded {
    pub file: String,
}

/// A document with the bytes of its markup.
#[derive(Debug)]
pub struct Loaded {
    pub file: String,
    pub bytes: Vec<u8>,
}

/// A document with its blocks.
#[derive(Debug)]
pub struct Parsed {
    pub file: String,
    pub blocks: DocBlocks,
}

impl Unloaded {
    /// Names a document.
    pub fn open(file: String) -> (r: Unloaded)
        ensures
            r.file@ == file@,
    {
        Unloaded { file }
    }

    /// Takes the bytes of the document's markup.
    pub fn load(self, bytes: Vec<u8>) -> (r: Loaded)
        ensures
            r.file@ == self.file@,
            r.bytes@ == bytes@,
    {
        Loaded { file: self.file, bytes }
    }
}

impl Loaded {
    /// Takes the content tree that a parser has made of the bytes, and builds
    /// the blocks from it.
    pub fn parse(self, nodes: Vec<Node>) -> (r: Parsed)
        ensures
            r.file@ == self.file@,
            r.blocks@ == built(nodes@),
    {
        Parsed { file: self.file, blocks: build(nodes) }
    }

    /// Reads the record of the document straight from its markup.
    pub fn extract(&self) -> (r: Result<ExtractedInfo, ExtractError>)
        ensures
            gives_record(r, report_scan(steps_of(self.bytes@)), self.file@),
    {
        extract_one(self.bytes.as_slice(), self.file.clone())
    }

    /// Gives the document up and hands back the name of its file.
    pub fn release(self) -> (r: String)
        ensures
            r@ == self.file@,
    {
        self.file
    }
}

impl Parsed {
    /// Extracts the record of the document from its blocks.
    pub fn extract(&self, header: &HeaderTerms, sections: &Vec<Term>) -> (r: Result<
        ExtractedInfo,
        ExtractError,
    >)
        ensures
            match r {
                Ok(info) => extracted(self.blocks@, header@, sections.deep_view(), self.file@)
                    == Ok::<ExtractedInfoView, ExtractError>(info@),
                Err(e) => extracted(self.blocks@, header@, sections.deep_view(), self.file@)
                    == Err::<ExtractedInfoView, ExtractError>(e),
            },
    {
        extract(&self.blocks, header, sections, self.file.clone())
    }

    /// Gives the document up and hands back the name of its file.
    pub fn release(self) -> (r: String)
        ensures
            r@ == self.file@,
    {
        self.file
    }
}

/// A loaded document as plain values.
pub struct LoadedView {
    pub file: Seq<char>,
    pub bytes: Seq<u8>,
}

impl View for Loaded {
    type V = LoadedView;

    open spec fn view(&self) -> LoadedView {
        LoadedView { file: self.file@, bytes: self.bytes@ }
    }
}

/// The loaded documents as plain values.
pub open spec fn loaded_view(docs: Seq<Loaded>) -> Seq<LoadedView> {
    Seq::new(docs.len(), |i: int| docs[i]@)
}

/// The rows of a run over the markup of several documents: one for each
/// document that gives a record, in the order of the documents.
pub open spec fn markup_rows(docs: Seq<LoadedView>) -> Seq<Seq<Seq<char>>>
    decreases docs.len(),
{
    if docs.len() == 0 {
        Seq::empty()
    } else {
        let before = markup_rows(docs.drop_last());
        match report_of(docs.last().bytes, docs.last().file) {
            Ok(info) => before.push(row_of(info)),
            Err(_) => before,
        }
    }
}

/// The documents of such a run that give no record, each with the reason, in
/// the order of the documents.
pub open spec fn markup_skipped(docs: Seq<LoadedView>) -> Seq<(Seq<char>, ExtractError)>
    decreases docs.len(),
{
    if docs.len() == 0 {
        Seq::empty()
    } else {
        let before = markup_skipped(docs.drop_last());
        match report_of(docs.last().bytes, docs.last().file) {
            Ok(_) => before,
            Err(e) => before.push((docs.last().file, e)),
        }
    }
}

/// Reads the records of several documents straight from their markup. A
/// document that gives no record is set aside with the reason, and the run
/// goes on with the next.
pub fn extract_all_loaded(docs: &Vec<Loaded>) -> (r: Report)
    ensures
        r.rows.deep_view() == markup_rows(loaded_view(docs@)),
        skipped_view(r.skipped@) == markup_skipped(loaded_view(docs@)),
{
    let mut rows: Vec<Vec<String>> = Vec::new();
    let mut skipped: Vec<Skipped> = Vec::new();
    let ghost all = loaded_view(docs@);
    let mut i: usize = 0;
    proof {
        assert(all.take(0) == Seq::<LoadedView>::empty());
        assert(rows.deep_view() =~= Seq::<Seq<Seq<char>>>::empty());
        assert(skipped_view(skipped@) =~= Seq::<(Seq<char>, ExtractError)>::empty());
    }
    while i < docs.len()
        invariant
            i <= docs.len(),
            all == loaded_view(docs@),
            rows.deep_view() == markup_rows(all.take(i as int)),
            skipped_view(skipped@) == markup_skipped(all.take(i as int)),
        decreases docs.len() - i,
    {
        let ghost rows_before = rows.deep_view();
        let ghost skipped_before = skipped_view(skipped@);
        proof {
            let upto = all.take(i + 1);
            assert(upto.drop_last() == all.take(i as int));
            assert(upto.last() == docs@[i as int]@);
        }
        let doc = &docs[i];
        match extract_one(doc.bytes.as_slice(), doc.file.clone()) {
            Ok(info) => {
                let row = info.into_record();
                rows.push(row);
                assert(rows.deep_view() =~= rows_before.push(row_of(info@)));
            },
            Err(reason) => {
                skipped.push(Skipped { file: doc.file.clone(), reason });
                assert(skipped_view(skipped@) =~= skipped_before.push((doc.file@, reason)));
            },
        }
        i += 1;
    }
    proof {
        assert(all.take(docs.len() as int) == all);
    }
    Report { rows, skipped }
}

/// Every document of a run over markup ends up in exactly one place: among
/// the rows or among the skipped.
pub proof fn lemma_markup_run_accounts_for_all(docs: Seq<LoadedView>)
    ensures
        markup_rows(docs).len() + markup_skipped(docs).len() == docs.len(),
    decreases docs.len(),
{
    if docs.len() > 0 {
        lemma_markup_run_accounts_for_all(docs.drop_last());
    }
}

/// A document that gives no record is set aside, and the documents before
/// it keep their rows: the failure is that of the one document alone.
pub proof fn lemma_markup_run_goes_on(docs: Seq<LoadedView>)
    requires
        docs.len() > 0,
        report_of(docs.last().bytes, docs.last().file) is Err,
    ensures
        markup_rows(docs) == markup_rows(docs.drop_last()),
        markup_skipped(docs) == markup_skipped(docs.drop_last()).push(
            (docs.last().file, report_of(docs.last().bytes, docs.last().file)->Err_0),
        ),
{
}

} // verus!
