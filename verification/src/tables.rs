//! Reading the value of a term from tables that carry their heading, with
//! loose paragraphs as a fallback.

use vstd::prelude::*;
use crate::block::{cells_of, flatten, rows_view, Block, BlockView, DocBlocks, RowView};
use crate::header::{HeaderFields, HeaderFieldsView, HeaderTerms};
use crate::record::{ExtractedInfo, ExtractedInfoView};
use crate::scan::{first_index, lemma_first_index_is};
use crate::section::{join_lines, lines};
use crate::term::{begins_with, matches_any, stripped, Term};

verus! {

/// A table with the paragraph that stands above it, where there is one.
#[derive(Debug)]
pub struct DocTable {
    pub heading: Option<String>,
    pub rows: Vec<[String; 2]>,
}

/// A table as plain text.
pub struct DocTableView {
    pub heading: Option<Seq<char>>,
    pub rows: Seq<RowView>,
}

impl View for DocTable {
    type V = DocTableView;

    open spec fn view(&self) -> DocTableView {
        DocTableView {
            heading: match self.heading {
                Some(h) => Some(h@),
                None => None,
            },
            rows: rows_view(self.rows@),
        }
    }
}

/// The tables of a document and the paragraphs that stand by themselves.
#[derive(Debug)]
pub struct DocTables {
    pub paragraphs: Vec<String>,
    pub tables: Vec<DocTable>,
}

impl Default for DocTables {
    fn default() -> (r: DocTables)
        ensures
            r@.paragraphs.len() == 0,
            r@.tables.len() == 0,
    {
        DocTables { paragraphs: Vec::new(), tables: Vec::new() }
    }
}

/// The tables and paragraphs of a document as plain text.
pub struct DocTablesView {
    pub paragraphs: Seq<Seq<char>>,
    pub tables: Seq<DocTableView>,
}

impl View for DocTables {
    type V = DocTablesView;

    open spec fn view(&self) -> DocTablesView {
        DocTablesView {
            paragraphs: self.paragraphs.deep_view(),
            tables: Seq::new(self.tables@.len(), |i: int| self.tables@[i]@),
        }
    }
}

/// The predicate "the first cell of the row matches `term`".
pub open spec fn labelled(term: Seq<Seq<char>>) -> spec_fn(RowView) -> bool {
    |r: RowView| matches_any(term, r.0)
}

/// The predicate "the first cell of the row matches `term` and the second is
/// not empty".
pub open spec fn labelled_with_value(term: Seq<Seq<char>>) -> spec_fn(RowView) -> bool {
    |r: RowView| matches_any(term, r.0) && r.1.len() > 0
}

/// The value that a column of labels gives for `term`: the second cell of the
/// first row whose first cell matches `term` and whose second is not empty.
pub open spec fn column_value(rows: Seq<RowView>, term: Seq<Seq<char>>) -> Option<Seq<char>> {
    let k = first_index(rows, labelled_with_value(term));
    if k < rows.len() {
        Some(rows[k].1)
    } else {
        None
    }
}

/// The text of a whole table: its cells that are not empty, in reading
/// order, joined by newlines.
pub open spec fn table_text(rows: Seq<RowView>) -> Seq<char> {
    lines(cells_of(rows))
}

/// What one table says of `term`, if anything. A table without heading
/// answers with the value that its column of labels gives. A table whose
/// heading matches `term` answers with that value too or, where its column
/// gives none, with its whole text: its cells that are not empty, joined by
/// newlines. Any other table says nothing.
pub open spec fn table_answer(t: DocTableView, term: Seq<Seq<char>>) -> Option<Seq<char>> {
    match t.heading {
        None => column_value(t.rows, term),
        Some(h) => if matches_any(term, h) {
            match column_value(t.rows, term) {
                Some(v) => Some(v),
                None => Some(table_text(t.rows)),
            }
        } else {
            None
        },
    }
}

/// The predicate "the table says something of `term`".
pub open spec fn answers(term: Seq<Seq<char>>) -> spec_fn(DocTableView) -> bool {
    |t: DocTableView| table_answer(t, term) is Some
}

/// The predicate "the paragraph begins with a spelling of `term`".
pub open spec fn begins(term: Seq<Seq<char>>) -> spec_fn(Seq<char>) -> bool {
    |p: Seq<char>| begins_with(term, p)
}

/// What the loose paragraphs say of `term`: the first that begins with a
/// spelling of `term`, stripped of the spellings.
pub open spec fn paragraph_answer(paragraphs: Seq<Seq<char>>, term: Seq<Seq<char>>) -> Option<
    Seq<char>,
> {
    let k = first_index(paragraphs, begins(term));
    if k < paragraphs.len() {
        Some(stripped(term, paragraphs[k]))
    } else {
        None
    }
}

/// The value of `term` in a document: the answer of the first table that has
/// one; failing that, the answer of the paragraphs; failing that, the empty
/// text.
pub open spec fn term_value(doc: DocTablesView, term: Seq<Seq<char>>) -> Seq<char> {
    let k = first_index(doc.tables, answers(term));
    if k < doc.tables.len() {
        table_answer(doc.tables[k], term)->0
    } else {
        match paragraph_answer(doc.paragraphs, term) {
            Some(v) => v,
            None => Seq::empty(),
        }
    }
}

impl Term {
    /// The value that a column of labels gives for the term.
    pub fn find_term_in_column(&self, rows: &Vec<[String; 2]>) -> (r: Option<String>)
        ensures
            match r {
                Some(v) => column_value(rows_view(rows@), self@) == Some(v@),
                None => column_value(rows_view(rows@), self@) is None,
            },
    {
        let ghost all = rows_view(rows@);
        let ghost p = labelled_with_value(self@);
        let mut i: usize = 0;
        while i < rows.len()
            invariant
                i <= rows.len(),
                all == rows_view(rows@),
                p == labelled_with_value(self@),
                forall|j: int| 0 <= j < i ==> !p(#[trigger] all[j]),
            decreases rows.len() - i,
        {
            let row = &rows[i];
            if self.matches(row[0].as_str()) && !row[1].as_str().is_empty() {
                proof {
                    lemma_first_index_is(all, p, i as int);
                }
                return Some(row[1].clone());
            }
            i += 1;
        }
        proof {
            lemma_first_index_is(all, p, all.len() as int);
        }
        None
    }
}

/// Whether the first cell of some row matches `term`.
pub fn first_column_contains_term(rows: &Vec<[String; 2]>, term: &Term) -> (r: bool)
    ensures
        r == (first_index(rows_view(rows@), labelled(term@)) < rows@.len()),
{
    let ghost all = rows_view(rows@);
    let ghost p = labelled(term@);
    let mut i: usize = 0;
    while i < rows.len()
        invariant
            i <= rows.len(),
            all == rows_view(rows@),
            p == labelled(term@),
            forall|j: int| 0 <= j < i ==> !p(#[trigger] all[j]),
        decreases rows.len() - i,
    {
        let row = &rows[i];
        if term.matches(row[0].as_str()) {
            proof {
                lemma_first_index_is(all, p, i as int);
            }
            return true;
        }
        i += 1;
    }
    proof {
        lemma_first_index_is(all, p, all.len() as int);
    }
    false
}

/// The text of a whole table.
pub fn text_of_table(rows: &Vec<[String; 2]>) -> (r: String)
    ensures
        r@ == table_text(rows_view(rows@)),
{
    let cells = flatten(rows);
    let r = join_lines(&cells, 0, cells.len());
    assert(cells.deep_view().subrange(0, cells.len() as int) == cells.deep_view());
    r
}

impl DocTable {
    /// What the table says of `term`, if anything.
    pub fn answer(&self, term: &Term) -> (r: Option<String>)
        ensures
            match r {
                Some(v) => table_answer(self@, term@) == Some(v@),
                None => table_answer(self@, term@) is None,
            },
    {
        match &self.heading {
            None => term.find_term_in_column(&self.rows),
            Some(h) => {
                if term.matches(h.as_str()) {
                    match term.find_term_in_column(&self.rows) {
                        Some(v) => Some(v),
                        None => Some(text_of_table(&self.rows)),
                    }
                } else {
                    None
                }
            },
        }
    }
}

impl DocTables {
    /// What the loose paragraphs say of `term`.
    pub fn find_in_paragraphs(&self, term: &Term) -> (r: Option<String>)
        ensures
            match r {
                Some(v) => paragraph_answer(self@.paragraphs, term@) == Some(v@),
                None => paragraph_answer(self@.paragraphs, term@) is None,
            },
    {
        let ghost all = self@.paragraphs;
        let ghost p = begins(term@);
        let mut i: usize = 0;
        while i < self.paragraphs.len()
            invariant
                i <= self.paragraphs.len(),
                all == self@.paragraphs,
                p == begins(term@),
                forall|j: int| 0 <= j < i ==> !p(#[trigger] all[j]),
            decreases self.paragraphs.len() - i,
        {
            let par = &self.paragraphs[i];
            if term.word_starts_with_term(par.as_str()) {
                proof {
                    lemma_first_index_is(all, p, i as int);
                }
                return Some(term.strip_term_from_word(par.as_str()));
            }
            i += 1;
        }
        proof {
            lemma_first_index_is(all, p, all.len() as int);
        }
        None
    }

    /// The value of `term` in the document.
    pub fn value_of(&self, term: &Term) -> (r: String)
        ensures
            r@ == term_value(self@, term@),
    {
        let ghost all = self@.tables;
        let ghost p = answers(term@);
        let mut i: usize = 0;
        while i < self.tables.len()
            invariant
                i <= self.tables.len(),
                all == self@.tables,
                p == answers(term@),
                forall|j: int| 0 <= j < i ==> !p(#[trigger] all[j]),
            decreases self.tables.len() - i,
        {
            match self.tables[i].answer(term) {
                Some(v) => {
                    proof {
                        lemma_first_index_is(all, p, i as int);
                    }
                    return v;
                },
                None => {},
            }
            i += 1;
        }
        proof {
            lemma_first_index_is(all, p, all.len() as int);
        }
        match self.find_in_paragraphs(term) {
            Some(v) => v,
            None => String::new(),
        }
    }

    /// The record of the document: the value of each header term and of each
    /// section term, with the name of the file.
    pub fn try_into_extracted(
        self,
        header: &HeaderTerms,
        sections: &Vec<Term>,
        file: String,
    ) -> (r: ExtractedInfo)
        ensures
            r@.header == (HeaderFieldsView {
                province: term_value(self@, header.province@),
                district: term_value(self@, header.district@),
                school: term_value(self@, header.school@),
                subject: term_value(self@, header.subject@),
            }),
            r@.body == Seq::new(
                sections@.len(),
                |i: int| term_value(self@, sections.deep_view()[i]),
            ),
            r@.file == file@,
    {
        let fields = HeaderFields {
            province: self.value_of(&header.province),
            district: self.value_of(&header.district),
            school: self.value_of(&header.school),
            subject: self.value_of(&header.subject),
        };
        let mut body: Vec<String> = Vec::new();
        let mut i: usize = 0;
        while i < sections.len()
            invariant
                i <= sections.len(),
                body@.len() == i,
                forall|j: int|
                    0 <= j < i ==> (#[trigger] body@[j])@ == term_value(
                        self@,
                        sections.deep_view()[j],
                    ),
            decreases sections.len() - i,
        {
            let text = self.value_of(&sections[i]);
            body.push(text);
            i += 1;
        }
        assert(body.deep_view() =~= Seq::new(
            sections@.len(),
            |i: int| term_value(self@, sections.deep_view()[i]),
        ));
        ExtractedInfo::assemble(fields, body, file)
    }
}

/// The paragraph that stands right above block `i`, where one does.
pub open spec fn heading_above(blocks: Seq<BlockView>, i: int) -> Option<Seq<char>> {
    if 0 < i <= blocks.len() {
        match blocks[i - 1] {
            BlockView::Paragraph(text) => Some(text),
            BlockView::Table(_) => None,
        }
    } else {
        None
    }
}

/// The tables among the first `n` blocks, each with the paragraph right above
/// it as its heading.
pub open spec fn headed_tables(blocks: Seq<BlockView>, n: int) -> Seq<DocTableView>
    decreases n,
{
    if n <= 0 || n > blocks.len() {
        Seq::empty()
    } else {
        match blocks[n - 1] {
            BlockView::Table(rows) => headed_tables(blocks, n - 1).push(
                DocTableView { heading: heading_above(blocks, n - 1), rows },
            ),
            BlockView::Paragraph(_) => headed_tables(blocks, n - 1),
        }
    }
}

/// The texts of the paragraphs among the first `n` blocks.
pub open spec fn paragraphs_of(blocks: Seq<BlockView>, n: int) -> Seq<Seq<char>>
    decreases n,
{
    if n <= 0 || n > blocks.len() {
        Seq::empty()
    } else {
        match blocks[n - 1] {
            BlockView::Paragraph(text) => paragraphs_of(blocks, n - 1).push(text),
            BlockView::Table(_) => paragraphs_of(blocks, n - 1),
        }
    }
}

impl DocTables {
    /// The tables of a document, each with the paragraph right above it as
    /// its heading, and all its paragraphs.
    pub fn from_blocks(blocks: &DocBlocks) -> (r: DocTables)
        ensures
            r@.tables == headed_tables(blocks@, blocks@.len() as int),
            r@.paragraphs == paragraphs_of(blocks@, blocks@.len() as int),
    {
        let mut r = DocTables { paragraphs: Vec::new(), tables: Vec::new() };
        let mut i: usize = 0;
        proof {
            assert(r@.tables =~= Seq::<DocTableView>::empty());
            assert(r@.paragraphs =~= Seq::<Seq<char>>::empty());
        }
        while i < blocks.blocks.len()
            invariant
                i <= blocks.blocks.len(),
                r@.tables == headed_tables(blocks@, i as int),
                r@.paragraphs == paragraphs_of(blocks@, i as int),
            decreases blocks.blocks.len() - i,
        {
            let ghost tables_before = r@.tables;
            let ghost paragraphs_before = r@.paragraphs;
            match &blocks.blocks[i] {
                Block::Paragraph(text) => {
                    r.paragraphs.push(text.clone());
                    assert(r@.paragraphs =~= paragraphs_before.push(text@));
                    assert(r@.tables =~= tables_before);
                },
                Block::Table(rows) => {
                    let heading = if i > 0 {
                        match &blocks.blocks[i - 1] {
                            Block::Paragraph(text) => Some(text.clone()),
                            Block::Table(_) => None,
                        }
                    } else {
                        None
                    };
                    let mut copy: Vec<[String; 2]> = Vec::new();
                    let mut k: usize = 0;
                    while k < rows.len()
                        invariant
                            k <= rows.len(),
                            copy@.len() == k,
                            forall|j: int|
                                0 <= j < k ==> (#[trigger] copy@[j])@[0]@ == rows@[j]@[0]@
                                    && copy@[j]@[1]@ == rows@[j]@[1]@,
                        decreases rows.len() - k,
                    {
                        let row = &rows[k];
                        copy.push([row[0].clone(), row[1].clone()]);
                        k += 1;
                    }
                    assert(rows_view(copy@) =~= rows_view(rows@));
                    let table = DocTable { heading, rows: copy };
                    r.tables.push(table);
                    assert(r@.tables =~= tables_before.push(table@));
                    assert(r@.paragraphs =~= paragraphs_before);
                },
            }
            i += 1;
        }
        r
    }
}

} // verus!
