//! Finding the header table of a document and reading the header fields from
//! it.

use vstd::prelude::*;
use crate::block::{cells_of, flatten, rows_view, Block, BlockView, DocBlocks};
use crate::error::ExtractError;
use crate::scan::{any, first_index, lemma_first_index, lemma_first_index_is};
use crate::term::{matches_any, matches_exact, matches_normalized, Term};
use crate::text::{normalized, same_text};

verus! {

/// The predicate "`text` is one of the term's spellings".
pub open spec fn exact_for(text: Seq<char>) -> spec_fn(Seq<Seq<char>>) -> bool {
    |t: Seq<Seq<char>>| matches_exact(t, text)
}

/// The predicate "`text` has the normal form of one of the term's spellings".
pub open spec fn normal_for(text: Seq<char>) -> spec_fn(Seq<Seq<char>>) -> bool {
    |t: Seq<Seq<char>>| matches_normalized(t, text)
}

/// The predicate "`text` matches the term, exactly or in normal form".
pub open spec fn match_for(text: Seq<char>) -> spec_fn(Seq<Seq<char>>) -> bool {
    |t: Seq<Seq<char>>| matches_any(t, text)
}

/// The predicate "the cell is an exact spelling of one of `terms`".
pub open spec fn exact_cell(terms: Seq<Seq<Seq<char>>>) -> spec_fn(Seq<char>) -> bool {
    |c: Seq<char>| any(terms, exact_for(c))
}

/// The predicate "the cell has the normal form of a spelling of one of
/// `terms`".
pub open spec fn normal_cell(terms: Seq<Seq<Seq<char>>>) -> spec_fn(Seq<char>) -> bool {
    |c: Seq<char>| any(terms, normal_for(c))
}

/// The predicate "the block is a table with a cell that is an exact spelling
/// of one of `terms`".
pub open spec fn exact_table(terms: Seq<Seq<Seq<char>>>) -> spec_fn(BlockView) -> bool {
    |b: BlockView|
        match b {
            BlockView::Paragraph(_) => false,
            BlockView::Table(rows) => any(cells_of(rows), exact_cell(terms)),
        }
}

/// The predicate "the block is a table with a cell that has the normal form of
/// a spelling of one of `terms`".
pub open spec fn normal_table(terms: Seq<Seq<Seq<char>>>) -> spec_fn(BlockView) -> bool {
    |b: BlockView|
        match b {
            BlockView::Paragraph(_) => false,
            BlockView::Table(rows) => any(cells_of(rows), normal_cell(terms)),
        }
}

/// The index of the header table: the first table with a cell that is an exact
/// spelling of one of `terms`; where there is none, the first table with a
/// cell that matches one in normal form; `blocks.len()` where there is none
/// either.
pub open spec fn header_table(blocks: Seq<BlockView>, terms: Seq<Seq<Seq<char>>>) -> int {
    let exact = first_index(blocks, exact_table(terms));
    if exact < blocks.len() {
        exact
    } else {
        first_index(blocks, normal_table(terms))
    }
}

/// Whether `text` is an exact spelling of one of `terms`.
pub fn is_exact_spelling(terms: &Vec<Term>, text: &str) -> (r: bool)
    ensures
        r == any(terms.deep_view(), exact_for(text@)),
{
    let ghost all = terms.deep_view();
    let ghost p = exact_for(text@);
    let mut i: usize = 0;
    while i < terms.len()
        invariant
            i <= terms.len(),
            all == terms.deep_view(),
            p == exact_for(text@),
            forall|j: int| 0 <= j < i ==> !p(#[trigger] all[j]),
        decreases terms.len() - i,
    {
        if terms[i].matches_exact(text) {
            proof {
                lemma_first_index_is(all, p, i as int);
            }
            return true;
        }
        i += 1;
    }
    proof {
        lemma_first_index_is(all, p, all.len() as int);
    }
    false
}

/// Whether `text` has the normal form of a spelling of one of `terms`.
pub fn is_normal_spelling(terms: &Vec<Term>, text: &str) -> (r: bool)
    ensures
        r == any(terms.deep_view(), normal_for(text@)),
{
    let ghost all = terms.deep_view();
    let ghost p = normal_for(text@);
    let mut i: usize = 0;
    while i < terms.len()
        invariant
            i <= terms.len(),
            all == terms.deep_view(),
            p == normal_for(text@),
            forall|j: int| 0 <= j < i ==> !p(#[trigger] all[j]),
        decreases terms.len() - i,
    {
        if terms[i].deep_matches(text) {
            proof {
                lemma_first_index_is(all, p, i as int);
            }
            return true;
        }
        i += 1;
    }
    proof {
        lemma_first_index_is(all, p, all.len() as int);
    }
    false
}

/// Whether a cell of `cells` is an exact spelling of one of `terms`.
pub fn holds_exact_spelling(cells: &Vec<String>, terms: &Vec<Term>) -> (r: bool)
    ensures
        r == any(cells.deep_view(), exact_cell(terms.deep_view())),
{
    let ghost all = cells.deep_view();
    let ghost p = exact_cell(terms.deep_view());
    let mut i: usize = 0;
    while i < cells.len()
        invariant
            i <= cells.len(),
            all == cells.deep_view(),
            p == exact_cell(terms.deep_view()),
            forall|j: int| 0 <= j < i ==> !p(#[trigger] all[j]),
        decreases cells.len() - i,
    {
        if is_exact_spelling(terms, cells[i].as_str()) {
            proof {
                lemma_first_index_is(all, p, i as int);
            }
            return true;
        }
        i += 1;
    }
    proof {
        lemma_first_index_is(all, p, all.len() as int);
    }
    false
}

/// Whether a cell of `cells` has the normal form of a spelling of one of
/// `terms`.
pub fn holds_normal_spelling(cells: &Vec<String>, terms: &Vec<Term>) -> (r: bool)
    ensures
        r == any(cells.deep_view(), normal_cell(terms.deep_view())),
{
    let ghost all = cells.deep_view();
    let ghost p = normal_cell(terms.deep_view());
    let mut i: usize = 0;
    while i < cells.len()
        invariant
            i <= cells.len(),
            all == cells.deep_view(),
            p == normal_cell(terms.deep_view()),
            forall|j: int| 0 <= j < i ==> !p(#[trigger] all[j]),
        decreases cells.len() - i,
    {
        if is_normal_spelling(terms, cells[i].as_str()) {
            proof {
                lemma_first_index_is(all, p, i as int);
            }
            return true;
        }
        i += 1;
    }
    proof {
        lemma_first_index_is(all, p, all.len() as int);
    }
    false
}

impl DocBlocks {
    /// The index of the first table with a cell that is an exact spelling of
    /// one of `terms`.
    fn first_exact_table(&self, terms: &Vec<Term>) -> (r: usize)
        ensures
            r == first_index(self@, exact_table(terms.deep_view())),
            r <= self.blocks.len(),
    {
        let ghost all = self@;
        let ghost p = exact_table(terms.deep_view());
        let mut i: usize = 0;
        while i < self.blocks.len()
            invariant
                i <= self.blocks.len(),
                all == self@,
                p == exact_table(terms.deep_view()),
                forall|j: int| 0 <= j < i ==> !p(#[trigger] all[j]),
            decreases self.blocks.len() - i,
        {
            let found = match &self.blocks[i] {
                Block::Paragraph(_) => false,
                Block::Table(rows) => {
                    let cells = flatten(rows);
                    holds_exact_spelling(&cells, terms)
                },
            };
            if found {
                proof {
                    lemma_first_index_is(all, p, i as int);
                }
                return i;
            }
            i += 1;
        }
        proof {
            lemma_first_index_is(all, p, all.len() as int);
        }
        i
    }

    /// The index of the first table with a cell that has the normal form of a
    /// spelling of one of `terms`.
    fn first_normal_table(&self, terms: &Vec<Term>) -> (r: usize)
        ensures
            r == first_index(self@, normal_table(terms.deep_view())),
            r <= self.blocks.len(),
    {
        let ghost all = self@;
        let ghost p = normal_table(terms.deep_view());
        let mut i: usize = 0;
        while i < self.blocks.len()
            invariant
                i <= self.blocks.len(),
                all == self@,
                p == normal_table(terms.deep_view()),
                forall|j: int| 0 <= j < i ==> !p(#[trigger] all[j]),
            decreases self.blocks.len() - i,
        {
            let found = match &self.blocks[i] {
                Block::Paragraph(_) => false,
                Block::Table(rows) => {
                    let cells = flatten(rows);
                    holds_normal_spelling(&cells, terms)
                },
            };
            if found {
                proof {
                    lemma_first_index_is(all, p, i as int);
                }
                return i;
            }
            i += 1;
        }
        proof {
            lemma_first_index_is(all, p, all.len() as int);
        }
        i
    }

    /// The header table: the first table that holds one of `terms` in an exact
    /// spelling or, where no table does, the first that holds one in normal
    /// form.
    pub fn find_table_containing_one_of(&self, terms: &Vec<Term>) -> (r: Option<&Block>)
        ensures
            r is Some <==> header_table(self@, terms.deep_view()) < self@.len(),
            r matches Some(b) ==> b@ == self@[header_table(self@, terms.deep_view())] && b@ is Table,
    {
        let exact = self.first_exact_table(terms);
        proof {
            lemma_first_index(self@, exact_table(terms.deep_view()));
            lemma_first_index(self@, normal_table(terms.deep_view()));
        }
        if exact < self.blocks.len() {
            return Some(&self.blocks[exact]);
        }
        let normal = self.first_normal_table(terms);
        if normal < self.blocks.len() {
            Some(&self.blocks[normal])
        } else {
            None
        }
    }
}

/// The canonical form of a cell: the canonical spelling of the first of
/// `terms` that the cell matches, or the cell itself where it matches none.
pub open spec fn canonical(terms: Seq<Seq<Seq<char>>>, cell: Seq<char>) -> Seq<char> {
    let t = first_index(terms, match_for(cell));
    if t < terms.len() {
        terms[t][0]
    } else {
        cell
    }
}

/// The cells, each in its canonical form.
pub open spec fn canonical_cells(terms: Seq<Seq<Seq<char>>>, cells: Seq<Seq<char>>) -> Seq<
    Seq<char>,
> {
    Seq::new(cells.len(), |i: int| canonical(terms, cells[i]))
}

/// The predicate "the cell is `label`".
pub open spec fn equal_to(label: Seq<char>) -> spec_fn(Seq<char>) -> bool {
    |c: Seq<char>| c == label
}

/// The value of `label`: the cell behind the first cell that is `label`, or
/// the empty text where no cell is `label` or none follows it.
pub open spec fn value_after(cells: Seq<Seq<char>>, label: Seq<char>) -> Seq<char> {
    let p = first_index(cells, equal_to(label));
    if p + 1 < cells.len() {
        cells[p + 1]
    } else {
        Seq::empty()
    }
}

/// The cells once the value of `label` has been taken: its cell is left
/// empty.
pub open spec fn cells_after(cells: Seq<Seq<char>>, label: Seq<char>) -> Seq<Seq<char>> {
    let p = first_index(cells, equal_to(label));
    if p + 1 < cells.len() {
        cells.update(p + 1, Seq::empty())
    } else {
        cells
    }
}

/// The canonical form of `cell` among `terms`.
pub fn canonical_cell(terms: &Vec<Term>, cell: &String) -> (r: String)
    ensures
        r@ == canonical(terms.deep_view(), cell@),
{
    let ghost all = terms.deep_view();
    let ghost p = match_for(cell@);
    let mut i: usize = 0;
    while i < terms.len()
        invariant
            i <= terms.len(),
            all == terms.deep_view(),
            p == match_for(cell@),
            forall|j: int| 0 <= j < i ==> !p(#[trigger] all[j]),
        decreases terms.len() - i,
    {
        if terms[i].matches(cell.as_str()) {
            proof {
                lemma_first_index_is(all, p, i as int);
            }
            return terms[i].as_main().to_owned();
        }
        i += 1;
    }
    proof {
        lemma_first_index_is(all, p, all.len() as int);
    }
    cell.clone()
}

/// Takes the value of `label` out of `cells`: returns the cell behind the
/// first cell that is `label` and leaves it empty.
pub fn take_value(cells: &mut Vec<String>, label: &str) -> (r: String)
    ensures
        r@ == value_after(old(cells).deep_view(), label@),
        final(cells).deep_view() == cells_after(old(cells).deep_view(), label@),
{
    let ghost all = cells.deep_view();
    let ghost p = equal_to(label@);
    let mut i: usize = 0;
    while i < cells.len()
        invariant
            i <= cells.len(),
            all == cells.deep_view(),
            *cells == *old(cells),
            p == equal_to(label@),
            forall|j: int| 0 <= j < i ==> !p(#[trigger] all[j]),
        decreases cells.len() - i,
    {
        if same_text(cells[i].as_str(), label) {
            proof {
                lemma_first_index_is(all, p, i as int);
            }
            if i + 1 < cells.len() {
                let value = cells[i + 1].clone();
                cells.set(i + 1, String::new());
                assert(cells.deep_view() =~= all.update(i + 1, Seq::empty()));
                return value;
            }
            return String::new();
        }
        i += 1;
    }
    proof {
        lemma_first_index_is(all, p, all.len() as int);
    }
    String::new()
}

/// The four header labels, each with its spellings.
#[derive(Clone, Copy, Debug)]
pub struct HeaderTerms {
    pub province: Term,
    pub district: Term,
    pub school: Term,
    pub subject: Term,
}

impl View for HeaderTerms {
    type V = Seq<Seq<Seq<char>>>;

    /// The four terms in their fixed order: province, district, school,
    /// subject.
    open spec fn view(&self) -> Seq<Seq<Seq<char>>> {
        seq![self.province@, self.district@, self.school@, self.subject@]
    }
}

/// The header labels as documents usually spell them.
pub open spec fn standard_header_terms() -> Seq<Seq<Seq<char>>> {
    seq![
        seq!["PROVINCE"@],
        seq!["DISTRICT"@, "DISTRICT/REGION"@],
        seq!["SCHOOL"@],
        seq!["SUBJECT"@],
    ]
}

/// The header labels with the further spellings that are met in reports where
/// labels stand in paragraphs or above tables.
pub open spec fn spelled_out_header_terms() -> Seq<Seq<Seq<char>>> {
    seq![
        seq!["PROVINCE"@, "PROVINCE:"@, "Province"@, "Province:"@],
        seq![
            "DISTRICT"@,
            "DISTRICT:"@,
            "District"@,
            "District:"@,
            "NAME OF DISTRICT"@,
            "DISTRICT 1"@,
        ],
        seq![
            "SCHOOL"@,
            "SCHOOL:"@,
            "School"@,
            "School:"@,
            "List of Moderated Schools"@,
            "The schools that were moderated are"@,
            "The schools that were moderated are:"@,
        ],
        seq!["SUBJECT"@, "SUBJECT:"@, "Subject"@, "Subject:"@],
    ]
}

impl HeaderTerms {
    /// The header labels as documents usually spell them.
    pub fn standard() -> (r: HeaderTerms)
        ensures
            r@ == standard_header_terms(),
    {
        HeaderTerms {
            province: Term::Single("PROVINCE"),
            district: Term::Double { main: "DISTRICT", alt: "DISTRICT/REGION" },
            school: Term::Single("SCHOOL"),
            subject: Term::Single("SUBJECT"),
        }
    }

    /// The header labels with the further spellings that are met in reports
    /// where labels stand in paragraphs or above tables.
    pub fn spelled_out() -> (r: HeaderTerms)
        ensures
            r@ == spelled_out_header_terms(),
    {
        let province: &'static [&'static str] = &["PROVINCE:", "Province", "Province:"];
        let district: &'static [&'static str] = &[
            "DISTRICT:",
            "District",
            "District:",
            "NAME OF DISTRICT",
            "DISTRICT 1",
        ];
        let school: &'static [&'static str] = &[
            "SCHOOL:",
            "School",
            "School:",
            "List of Moderated Schools",
            "The schools that were moderated are",
            "The schools that were moderated are:",
        ];
        let subject: &'static [&'static str] = &["SUBJECT:", "Subject", "Subject:"];
        let r = HeaderTerms {
            province: Term::Many { main: "PROVINCE", other: province },
            district: Term::Many { main: "DISTRICT", other: district },
            school: Term::Many { main: "SCHOOL", other: school },
            subject: Term::Many { main: "SUBJECT", other: subject },
        };
        proof {
            let want = spelled_out_header_terms();
            assert(r@[0] =~= want[0]);
            assert(r@[1] =~= want[1]);
            assert(r@[2] =~= want[2]);
            assert(r@[3] =~= want[3]);
            assert(r@ =~= want);
        }
        r
    }

    /// The four terms in their fixed order.
    pub fn list(&self) -> (r: Vec<Term>)
        ensures
            r.deep_view() == self@,
    {
        let mut r: Vec<Term> = Vec::new();
        r.push(self.province);
        r.push(self.district);
        r.push(self.school);
        r.push(self.subject);
        assert(r.deep_view() =~= self@);
        r
    }
}

/// The header fields of a document. A field that the document does not give
/// is empty.
#[derive(Debug)]
pub struct HeaderFields {
    pub province: String,
    pub district: String,
    pub school: String,
    pub subject: String,
}

/// The header fields as plain text.
pub struct HeaderFieldsView {
    pub province: Seq<char>,
    pub district: Seq<char>,
    pub school: Seq<char>,
    pub subject: Seq<char>,
}

impl View for HeaderFields {
    type V = HeaderFieldsView;

    open spec fn view(&self) -> HeaderFieldsView {
        HeaderFieldsView {
            province: self.province@,
            district: self.district@,
            school: self.school@,
            subject: self.subject@,
        }
    }
}

/// The header fields that the cells of a header table give: the cells are put
/// in canonical form, then the value of each label is taken in the fixed
/// order, each from what the one before has left.
pub open spec fn header_fields(
    cells: Seq<Seq<char>>,
    terms: Seq<Seq<Seq<char>>>,
) -> HeaderFieldsView {
    let c0 = canonical_cells(terms, cells);
    let c1 = cells_after(c0, terms[0][0]);
    let c2 = cells_after(c1, terms[1][0]);
    let c3 = cells_after(c2, terms[2][0]);
    HeaderFieldsView {
        province: value_after(c0, terms[0][0]),
        district: value_after(c1, terms[1][0]),
        school: value_after(c2, terms[2][0]),
        subject: value_after(c3, terms[3][0]),
    }
}

/// The cells of a block: those of a table, none of a paragraph.
pub open spec fn block_cells(b: BlockView) -> Seq<Seq<char>> {
    match b {
        BlockView::Paragraph(_) => Seq::empty(),
        BlockView::Table(rows) => cells_of(rows),
    }
}

/// The header of a document: the fields that its header table gives, or
/// `HeaderNotFound` where it has no header table.
pub open spec fn located_header(blocks: Seq<BlockView>, terms: Seq<Seq<Seq<char>>>) -> Result<
    HeaderFieldsView,
    ExtractError,
> {
    let h = header_table(blocks, terms);
    if h < blocks.len() {
        Ok(header_fields(block_cells(blocks[h]), terms))
    } else {
        Err(ExtractError::HeaderNotFound)
    }
}

/// Reads the header fields of a document from its header table.
///
/// Fails with `HeaderNotFound` exactly when no table holds one of the four
/// labels, in an exact spelling or in normal form.
pub fn locate_header(blocks: &DocBlocks, terms: &HeaderTerms) -> (r: Result<
    HeaderFields,
    ExtractError,
>)
    ensures
        match r {
            Ok(fields) => located_header(blocks@, terms@) == Ok::<HeaderFieldsView, ExtractError>(
                fields@,
            ),
            Err(e) => located_header(blocks@, terms@) == Err::<HeaderFieldsView, ExtractError>(e),
        },
{
    let list = terms.list();
    let rows = match blocks.find_table_containing_one_of(&list) {
        Some(Block::Table(rows)) => rows,
        _ => {
            return Err(ExtractError::HeaderNotFound);
        },
    };
    let raw = flatten(rows);
    let mut cells: Vec<String> = Vec::new();
    let mut i: usize = 0;
    while i < raw.len()
        invariant
            i <= raw.len(),
            list.deep_view() == terms@,
            cells@.len() == i,
            forall|j: int|
                0 <= j < i ==> (#[trigger] cells@[j])@ == canonical(terms@, raw.deep_view()[j]),
        decreases raw.len() - i,
    {
        let cell = canonical_cell(&list, &raw[i]);
        cells.push(cell);
        i += 1;
    }
    assert(cells.deep_view() =~= canonical_cells(terms@, raw.deep_view()));
    let province = take_value(&mut cells, terms.province.as_main());
    let district = take_value(&mut cells, terms.district.as_main());
    let school = take_value(&mut cells, terms.school.as_main());
    let subject = take_value(&mut cells, terms.subject.as_main());
    Ok(HeaderFields { province, district, school, subject })
}

/// Reads the header fields of a document under the standard header labels.
pub fn read_head(blocks: &DocBlocks) -> (r: Result<HeaderFields, ExtractError>)
    ensures
        match r {
            Ok(fields) => located_header(blocks@, standard_header_terms()) == Ok::<
                HeaderFieldsView,
                ExtractError,
            >(fields@),
            Err(e) => located_header(blocks@, standard_header_terms()) == Err::<
                HeaderFieldsView,
                ExtractError,
            >(e),
        },
{
    let terms = HeaderTerms::standard();
    locate_header(blocks, &terms)
}

/// Whether `terms` are four header terms as they should be: each has a
/// canonical spelling that is not empty, and no two have the same.
pub open spec fn well_formed(terms: Seq<Seq<Seq<char>>>) -> bool {
    &&& terms.len() == 4
    &&& forall|k: int| 0 <= k < 4 ==> (#[trigger] terms[k]).len() > 0 && terms[k][0].len() > 0
    &&& forall|j: int, k: int|
        0 <= j < k < 4 ==> (#[trigger] terms[j])[0] != (#[trigger] terms[k])[0]
}

/// The standard header terms are as header terms should be, and so are the
/// spelled-out ones.
pub proof fn lemma_standard_terms_well_formed()
    ensures
        well_formed(standard_header_terms()),
        well_formed(spelled_out_header_terms()),
{
    reveal_strlit("PROVINCE");
    reveal_strlit("DISTRICT");
    reveal_strlit("SCHOOL");
    reveal_strlit("SUBJECT");
    let p = "PROVINCE"@;
    let d = "DISTRICT"@;
    let s = "SCHOOL"@;
    let u = "SUBJECT"@;
    assert(p[0] != d[0] && p[0] != s[0] && d[0] != s[0] && d[0] != u[0] && p[0] != u[0]);
    assert(s[1] != u[1]);
    let a = standard_header_terms();
    assert(a[0][0] == p && a[1][0] == d && a[2][0] == s && a[3][0] == u);
    let b = spelled_out_header_terms();
    assert(b[0][0] == p && b[1][0] == d && b[2][0] == s && b[3][0] == u);
}

/// Whether `cell` is a value: it matches none of `terms`.
pub open spec fn is_value(terms: Seq<Seq<Seq<char>>>, cell: Seq<char>) -> bool {
    forall|t: int| 0 <= t < terms.len() ==> !matches_any(#[trigger] terms[t], cell)
}

/// Whether label `k` stands at cell `p` for the first time, in whatever
/// spelling its canonical form allows, with its value in the next cell.
pub open spec fn labelled_at(
    cells: Seq<Seq<char>>,
    terms: Seq<Seq<Seq<char>>>,
    k: int,
    p: int,
) -> bool {
    &&& 0 <= p && p + 1 < cells.len()
    &&& canonical(terms, cells[p]) == terms[k][0]
    &&& forall|i: int| 0 <= i < p ==> canonical(terms, #[trigger] cells[i]) != terms[k][0]
    &&& is_value(terms, cells[p + 1])
}

/// Whether no cell is a spelling of `term`.
pub open spec fn absent(cells: Seq<Seq<char>>, term: Seq<Seq<char>>) -> bool {
    forall|i: int| 0 <= i < cells.len() ==> !matches_any(term, #[trigger] cells[i])
}

/// A text matches a term of which it is the canonical spelling.
pub proof fn lemma_main_matches(term: Seq<Seq<char>>, cell: Seq<char>)
    requires
        term.len() > 0,
        cell == term[0],
    ensures
        matches_any(term, cell),
{
    assert(normalized(term[0]) == normalized(cell));
}

/// A cell that matches one term and no other, exactly or in normal form
/// (whatever its capitals, colons and white space), has the canonical
/// spelling of that term as its canonical form.
pub proof fn lemma_canonical_of_spelling(terms: Seq<Seq<Seq<char>>>, cell: Seq<char>, k: int)
    requires
        0 <= k < terms.len(),
        matches_any(terms[k], cell),
        forall|j: int| 0 <= j < terms.len() && j != k ==> !matches_any(#[trigger] terms[j], cell),
    ensures
        canonical(terms, cell) == terms[k][0],
{
    let p = match_for(cell);
    assert forall|j: int| 0 <= j < k implies !p(#[trigger] terms[j]) by {}
    lemma_first_index_is(terms, p, k);
}

/// A value is its own canonical form, and is the canonical spelling of no
/// term.
pub proof fn lemma_value_is_canonical(terms: Seq<Seq<Seq<char>>>, cell: Seq<char>)
    requires
        is_value(terms, cell),
    ensures
        canonical(terms, cell) == cell,
        forall|k: int| 0 <= k < terms.len() && (#[trigger] terms[k]).len() > 0 ==> cell != terms[k][0],
{
    let p = match_for(cell);
    assert forall|t: int| 0 <= t < terms.len() implies !p(#[trigger] terms[t]) by {}
    lemma_first_index_is(terms, p, terms.len() as int);
    assert forall|k: int| 0 <= k < terms.len() && (#[trigger] terms[k]).len() > 0 implies cell
        != terms[k][0] by {
        if cell == terms[k][0] {
            lemma_main_matches(terms[k], cell);
        }
    }
}

/// The canonical form of a cell that matches none of the terms but one is not
/// the canonical spelling of any other.
pub proof fn lemma_canonical_of_absent(terms: Seq<Seq<Seq<char>>>, cell: Seq<char>, k: int)
    requires
        well_formed(terms),
        0 <= k < 4,
        !matches_any(terms[k], cell),
    ensures
        canonical(terms, cell) != terms[k][0],
{
    let p = match_for(cell);
    lemma_first_index(terms, p);
    let t = first_index(terms, p);
    if t < terms.len() {
        assert(p(terms[t]));
        assert(t != k);
        if t < k {
            assert(terms[t][0] != terms[k][0]);
        } else {
            assert(terms[k][0] != terms[t][0]);
        }
    } else {
        if cell == terms[k][0] {
            lemma_main_matches(terms[k], cell);
        }
    }
}

/// Looking a label up in cells of which some have been emptied finds it where
/// it stood, as long as the label and its value have not been touched.
pub proof fn lemma_lookup(c0: Seq<Seq<char>>, c: Seq<Seq<char>>, label: Seq<char>, p: int)
    requires
        c.len() == c0.len(),
        label.len() > 0,
        0 <= p && p + 1 < c0.len(),
        c0[p] == label,
        forall|i: int| 0 <= i < p ==> #[trigger] c0[i] != label,
        c[p] == c0[p],
        c[p + 1] == c0[p + 1],
        forall|i: int| 0 <= i < c.len() ==> #[trigger] c[i] == c0[i] || c[i].len() == 0,
    ensures
        value_after(c, label) == c0[p + 1],
        cells_after(c, label) == c.update(p + 1, Seq::empty()),
{
    let q = equal_to(label);
    assert forall|i: int| 0 <= i < p implies !q(#[trigger] c[i]) by {
        assert(c[i] == c0[i] || c[i].len() == 0);
        assert(c0[i] != label);
    }
    lemma_first_index_is(c, q, p);
}

/// Looking up a label that stands nowhere gives the empty text and leaves the
/// cells as they are.
pub proof fn lemma_lookup_absent(c: Seq<Seq<char>>, label: Seq<char>)
    requires
        forall|i: int| 0 <= i < c.len() ==> #[trigger] c[i] != label,
    ensures
        value_after(c, label) == Seq::<char>::empty(),
        cells_after(c, label) == c,
{
    let q = equal_to(label);
    assert forall|i: int| 0 <= i < c.len() implies !q(#[trigger] c[i]) by {}
    lemma_first_index_is(c, q, c.len() as int);
}

/// Taking a value leaves every cell as it was or empty.
pub proof fn lemma_cells_after_shape(c: Seq<Seq<char>>, label: Seq<char>)
    ensures
        cells_after(c, label).len() == c.len(),
        forall|i: int|
            0 <= i < c.len() ==> #[trigger] cells_after(c, label)[i] == c[i] || cells_after(
                c,
                label,
            )[i].len() == 0,
{
    lemma_first_index(c, equal_to(label));
}

/// Field `k` of a header, in the fixed order of the labels.
pub open spec fn field(h: HeaderFieldsView, k: int) -> Seq<char> {
    if k == 0 {
        h.province
    } else if k == 1 {
        h.district
    } else if k == 2 {
        h.school
    } else {
        h.subject
    }
}

/// Where a table holds each of the four labels, in whatever spelling its
/// canonical form allows, with its value in the next cell, the header fields
/// are exactly these four values.
pub proof fn lemma_fields_of_full_table(
    cells: Seq<Seq<char>>,
    terms: Seq<Seq<Seq<char>>>,
    at_province: int,
    at_district: int,
    at_school: int,
    at_subject: int,
)
    requires
        well_formed(terms),
        labelled_at(cells, terms, 0, at_province),
        labelled_at(cells, terms, 1, at_district),
        labelled_at(cells, terms, 2, at_school),
        labelled_at(cells, terms, 3, at_subject),
    ensures
        header_fields(cells, terms) == (HeaderFieldsView {
            province: cells[at_province + 1],
            district: cells[at_district + 1],
            school: cells[at_school + 1],
            subject: cells[at_subject + 1],
        }),
{
    let e = Seq::<char>::empty();
    let c0 = canonical_cells(terms, cells);
    lemma_value_is_canonical(terms, cells[at_province + 1]);
    lemma_value_is_canonical(terms, cells[at_district + 1]);
    lemma_value_is_canonical(terms, cells[at_school + 1]);
    lemma_value_is_canonical(terms, cells[at_subject + 1]);
    assert(terms[0][0] != terms[1][0] && terms[0][0] != terms[2][0] && terms[0][0] != terms[3][0]);
    assert(terms[1][0] != terms[2][0] && terms[1][0] != terms[3][0]);
    assert(terms[2][0] != terms[3][0]);
    assert(terms[0].len() > 0 && terms[1].len() > 0 && terms[2].len() > 0 && terms[3].len() > 0);
    assert(c0[at_province] == terms[0][0] && c0[at_district] == terms[1][0] && c0[at_school] == terms[2][0] && c0[at_subject]
        == terms[3][0]);
    assert(c0[at_province + 1] == cells[at_province + 1] && c0[at_district + 1] == cells[at_district + 1] && c0[at_school + 1] == cells[at_school
        + 1] && c0[at_subject + 1] == cells[at_subject + 1]);
    assert forall|i: int| 0 <= i < at_province implies #[trigger] c0[i] != terms[0][0] by {
        assert(canonical(terms, cells[i]) != terms[0][0]);
    }
    assert forall|i: int| 0 <= i < at_district implies #[trigger] c0[i] != terms[1][0] by {
        assert(canonical(terms, cells[i]) != terms[1][0]);
    }
    assert forall|i: int| 0 <= i < at_school implies #[trigger] c0[i] != terms[2][0] by {
        assert(canonical(terms, cells[i]) != terms[2][0]);
    }
    assert forall|i: int| 0 <= i < at_subject implies #[trigger] c0[i] != terms[3][0] by {
        assert(canonical(terms, cells[i]) != terms[3][0]);
    }
    lemma_lookup(c0, c0, terms[0][0], at_province);
    let c1 = c0.update(at_province + 1, e);
    assert(cells_after(c0, terms[0][0]) == c1);
    lemma_lookup(c0, c1, terms[1][0], at_district);
    let c2 = c1.update(at_district + 1, e);
    assert(cells_after(c1, terms[1][0]) == c2);
    lemma_lookup(c0, c2, terms[2][0], at_school);
    let c3 = c2.update(at_school + 1, e);
    assert(cells_after(c2, terms[2][0]) == c3);
    lemma_lookup(c0, c3, terms[3][0], at_subject);
}

/// Where the header table of a document holds each of the four labels, in
/// whatever spelling its canonical form allows (capitals, a colon, white
/// space), with its value in the next cell, the header is found and consists
/// of exactly these four values.
pub proof fn lemma_header_of_full_table(
    blocks: Seq<BlockView>,
    terms: Seq<Seq<Seq<char>>>,
    at_province: int,
    at_district: int,
    at_school: int,
    at_subject: int,
)
    requires
        well_formed(terms),
        header_table(blocks, terms) < blocks.len(),
        labelled_at(block_cells(blocks[header_table(blocks, terms)]), terms, 0, at_province),
        labelled_at(block_cells(blocks[header_table(blocks, terms)]), terms, 1, at_district),
        labelled_at(block_cells(blocks[header_table(blocks, terms)]), terms, 2, at_school),
        labelled_at(block_cells(blocks[header_table(blocks, terms)]), terms, 3, at_subject),
    ensures
        located_header(blocks, terms) == Ok::<HeaderFieldsView, ExtractError>(
            HeaderFieldsView {
                province: block_cells(blocks[header_table(blocks, terms)])[at_province + 1],
                district: block_cells(blocks[header_table(blocks, terms)])[at_district + 1],
                school: block_cells(blocks[header_table(blocks, terms)])[at_school + 1],
                subject: block_cells(blocks[header_table(blocks, terms)])[at_subject + 1],
            },
        ),
{
    lemma_fields_of_full_table(
        block_cells(blocks[header_table(blocks, terms)]),
        terms,
        at_province,
        at_district,
        at_school,
        at_subject,
    );
}

/// A label of which the cells hold no spelling gives an empty field.
pub proof fn lemma_field_of_absent_label(
    cells: Seq<Seq<char>>,
    terms: Seq<Seq<Seq<char>>>,
    k: int,
)
    requires
        well_formed(terms),
        0 <= k < 4,
        absent(cells, terms[k]),
    ensures
        field(header_fields(cells, terms), k) == Seq::<char>::empty(),
{
    let label = terms[k][0];
    let c0 = canonical_cells(terms, cells);
    let c1 = cells_after(c0, terms[0][0]);
    let c2 = cells_after(c1, terms[1][0]);
    let c3 = cells_after(c2, terms[2][0]);
    lemma_cells_after_shape(c0, terms[0][0]);
    lemma_cells_after_shape(c1, terms[1][0]);
    lemma_cells_after_shape(c2, terms[2][0]);
    assert(label.len() > 0);
    assert forall|i: int| 0 <= i < c0.len() implies #[trigger] c0[i] != label by {
        lemma_canonical_of_absent(terms, cells[i], k);
    }
    assert forall|i: int| 0 <= i < c1.len() implies #[trigger] c1[i] != label by {
        assert(c1[i] == c0[i] || c1[i].len() == 0);
        assert(c0[i] != label);
    }
    assert forall|i: int| 0 <= i < c2.len() implies #[trigger] c2[i] != label by {
        assert(c2[i] == c1[i] || c2[i].len() == 0);
        assert(c1[i] != label);
    }
    assert forall|i: int| 0 <= i < c3.len() implies #[trigger] c3[i] != label by {
        assert(c3[i] == c2[i] || c3[i].len() == 0);
        assert(c2[i] != label);
    }
    lemma_lookup_absent(c0, label);
    lemma_lookup_absent(c1, label);
    lemma_lookup_absent(c2, label);
    lemma_lookup_absent(c3, label);
}

/// A document with a header table gives a header whatever labels the table
/// lacks, and a label that the table does not hold gives an empty field.
pub proof fn lemma_absent_label_is_empty(
    blocks: Seq<BlockView>,
    terms: Seq<Seq<Seq<char>>>,
    k: int,
)
    requires
        well_formed(terms),
        header_table(blocks, terms) < blocks.len(),
        0 <= k < 4,
        absent(block_cells(blocks[header_table(blocks, terms)]), terms[k]),
    ensures
        located_header(blocks, terms) is Ok,
        field(located_header(blocks, terms)->Ok_0, k) == Seq::<char>::empty(),
{
    lemma_field_of_absent_label(block_cells(blocks[header_table(blocks, terms)]), terms, k);
}

/// The header is found exactly when some table holds a header label, in an
/// exact spelling or in normal form; otherwise the error is
/// `HeaderNotFound`.
pub proof fn lemma_header_found_iff(blocks: Seq<BlockView>, terms: Seq<Seq<Seq<char>>>)
    ensures
        located_header(blocks, terms) is Ok <==> any(blocks, exact_table(terms)) || any(
            blocks,
            normal_table(terms),
        ),
        located_header(blocks, terms) is Err ==> located_header(blocks, terms)
            == Err::<HeaderFieldsView, ExtractError>(ExtractError::HeaderNotFound),
{
    lemma_first_index(blocks, exact_table(terms));
    lemma_first_index(blocks, normal_table(terms));
}

} // verus!
