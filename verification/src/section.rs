//! Finding the text of each named section of a document.

use vstd::prelude::*;
use vstd::string::StringExecFns;
use crate::block::{cells_of, flatten, nonempty, rows_view, Block, BlockView, DocBlocks};
use crate::header::block_cells;
use crate::scan::{any, first_index, lemma_first_index, lemma_first_index_is};
use crate::term::{matches_exact, matches_normalized, Term};
use crate::text::{join, joined};

verus! {

/// The text that separates the cells of a table in a section's value.
pub open spec fn newline() -> Seq<char> {
    seq!['\n']
}

/// The cells that are not empty, joined by newlines.
pub open spec fn lines(cells: Seq<Seq<char>>) -> Seq<char> {
    joined(nonempty(cells), newline())
}

/// What a block holds as text: a paragraph its text, a table its cells that
/// are not empty, in reading order, joined by newlines.
pub open spec fn content_of(b: BlockView) -> Seq<char> {
    match b {
        BlockView::Paragraph(text) => text,
        BlockView::Table(rows) => lines(cells_of(rows)),
    }
}

/// The content of the block behind block `k`, or the empty text where `k` is
/// the last block.
pub open spec fn following(blocks: Seq<BlockView>, k: int) -> Seq<char> {
    if k + 1 < blocks.len() {
        content_of(blocks[k + 1])
    } else {
        Seq::empty()
    }
}

/// The predicate "the block is a paragraph that is an exact spelling of
/// `term`".
pub open spec fn exact_paragraph(term: Seq<Seq<char>>) -> spec_fn(BlockView) -> bool {
    |b: BlockView|
        match b {
            BlockView::Paragraph(text) => matches_exact(term, text),
            BlockView::Table(_) => false,
        }
}

/// The predicate "the cell has the normal form of a spelling of `term`".
pub open spec fn normal_of(term: Seq<Seq<char>>) -> spec_fn(Seq<char>) -> bool {
    |c: Seq<char>| matches_normalized(term, c)
}

/// The predicate "the block is a paragraph with the normal form of a spelling
/// of `term`, or a table with such a cell".
pub open spec fn normal_block(term: Seq<Seq<char>>) -> spec_fn(BlockView) -> bool {
    |b: BlockView|
        match b {
            BlockView::Paragraph(text) => matches_normalized(term, text),
            BlockView::Table(rows) => any(cells_of(rows), normal_of(term)),
        }
}

/// The predicate "the term is another one than `own` and `cell` has the normal
/// form of one of its spellings".
pub open spec fn rival_for(own: Seq<Seq<char>>, cell: Seq<char>) -> spec_fn(
    Seq<Seq<char>>,
) -> bool {
    |t: Seq<Seq<char>>| t != own && matches_normalized(t, cell)
}

/// The predicate "the cell has the normal form of a spelling of one of
/// `terms` other than `own`".
pub open spec fn rival_cell(terms: Seq<Seq<Seq<char>>>, own: Seq<Seq<char>>) -> spec_fn(
    Seq<char>,
) -> bool {
    |c: Seq<char>| any(terms, rival_for(own, c))
}

/// The value of the term `own` in a table that holds several sections one
/// behind the other: the cells behind the first cell that matches `own` in
/// normal form, up to the next cell that matches another of `terms` or, where
/// none does, to the end of the table.
pub open spec fn slice_of(
    cells: Seq<Seq<char>>,
    terms: Seq<Seq<Seq<char>>>,
    own: Seq<Seq<char>>,
) -> Seq<char> {
    let p = first_index(cells, normal_of(own));
    if p < cells.len() {
        let rest = cells.skip(p + 1);
        let q = first_index(rest, rival_cell(terms, own));
        lines(rest.take(q))
    } else {
        Seq::empty()
    }
}

/// The text of the section that `own` names.
///
/// Where a paragraph is an exact spelling of `own`, it is the content of the
/// block behind the first such paragraph. Otherwise the first block counts
/// that matches `own` in normal form, as a paragraph or in a cell: behind a
/// paragraph the content of the next block, in a table the slice of it that
/// belongs to `own`. Where nothing matches, the text is empty.
pub open spec fn section_text(
    blocks: Seq<BlockView>,
    terms: Seq<Seq<Seq<char>>>,
    own: Seq<Seq<char>>,
) -> Seq<char> {
    let e = first_index(blocks, exact_paragraph(own));
    let n = first_index(blocks, normal_block(own));
    if e < blocks.len() {
        following(blocks, e)
    } else if n < blocks.len() {
        match blocks[n] {
            BlockView::Paragraph(_) => following(blocks, n),
            BlockView::Table(rows) => slice_of(cells_of(rows), terms, own),
        }
    } else {
        Seq::empty()
    }
}

/// The texts of the sections that `terms` name, in the order of `terms`.
pub open spec fn section_values(blocks: Seq<BlockView>, terms: Seq<Seq<Seq<char>>>) -> Seq<
    Seq<char>,
> {
    Seq::new(terms.len(), |i: int| section_text(blocks, terms, terms[i]))
}

/// The cells `cells[from..to]` that are not empty, joined by newlines.
pub fn join_lines(cells: &Vec<String>, from: usize, to: usize) -> (r: String)
    requires
        from <= to <= cells.len(),
    ensures
        r@ == lines(cells.deep_view().subrange(from as int, to as int)),
{
    let ghost part = cells.deep_view().subrange(from as int, to as int);
    let ghost keep = |c: Seq<char>| c.len() > 0;
    let mut kept: Vec<String> = Vec::new();
    let mut i: usize = from;
    proof {
        assert(part.take(0) == Seq::<Seq<char>>::empty());
        reveal(Seq::filter);
        assert(kept.deep_view() == Seq::<Seq<char>>::empty());
    }
    while i < to
        invariant
            from <= i <= to <= cells.len(),
            part == cells.deep_view().subrange(from as int, to as int),
            keep == |c: Seq<char>| c.len() > 0,
            kept.deep_view() == part.take(i - from).filter(keep),
        decreases to - i,
    {
        let ghost before = kept.deep_view();
        proof {
            assert(part.take(i + 1 - from) == part.take(i - from).push(cells@[i as int]@));
            part.take(i - from).lemma_filter_push(cells@[i as int]@, keep);
        }
        if !cells[i].as_str().is_empty() {
            let cell = cells[i].clone();
            kept.push(cell);
            assert(kept.deep_view() == before.push(cell@));
        }
        i += 1;
    }
    proof {
        assert(part.take(to - from) == part);
        reveal_strlit("\n");
        assert("\n"@ == newline());
    }
    join(&kept, "\n")
}

/// What `block` holds as text.
pub fn block_content(block: &Block) -> (r: String)
    ensures
        r@ == content_of(block@),
{
    match block {
        Block::Paragraph(text) => text.clone(),
        Block::Table(rows) => {
            let cells = flatten(rows);
            let r = join_lines(&cells, 0, cells.len());
            assert(cells.deep_view().subrange(0, cells.len() as int) == cells.deep_view());
            r
        },
    }
}

/// The index of the first cell that has the normal form of a spelling of
/// `term`, or `cells.len()`.
pub fn first_normal_cell(cells: &Vec<String>, term: &Term) -> (r: usize)
    ensures
        r == first_index(cells.deep_view(), normal_of(term@)),
        r <= cells.len(),
{
    let ghost all = cells.deep_view();
    let ghost p = normal_of(term@);
    let mut i: usize = 0;
    while i < cells.len()
        invariant
            i <= cells.len(),
            all == cells.deep_view(),
            p == normal_of(term@),
            forall|j: int| 0 <= j < i ==> !p(#[trigger] all[j]),
        decreases cells.len() - i,
    {
        if term.deep_matches(cells[i].as_str()) {
            proof {
                lemma_first_index_is(all, p, i as int);
            }
            return i;
        }
        i += 1;
    }
    proof {
        lemma_first_index_is(all, p, all.len() as int);
    }
    i
}

/// Whether `cell` has the normal form of a spelling of one of `terms` other
/// than `own`.
pub fn is_rival_cell(terms: &Vec<Term>, own: &Term, cell: &str) -> (r: bool)
    ensures
        r == any(terms.deep_view(), rival_for(own@, cell@)),
{
    let ghost all = terms.deep_view();
    let ghost p = rival_for(own@, cell@);
    let mut i: usize = 0;
    while i < terms.len()
        invariant
            i <= terms.len(),
            all == terms.deep_view(),
            p == rival_for(own@, cell@),
            forall|j: int| 0 <= j < i ==> !p(#[trigger] all[j]),
        decreases terms.len() - i,
    {
        if !terms[i].same_as(own) && terms[i].deep_matches(cell) {
            proof {
                lemma_first_index_is(all, p, i as int);
            }
            return true;
        }
        i += 1;
    }
    proof {
        lemma_first_index_is(all, p, all.len() as int);
    }
    false
}

/// The value of `own` in a table whose cells are `cells` and which may hold
/// the sections of several of `terms`.
pub fn slice_table(cells: &Vec<String>, terms: &Vec<Term>, own: &Term) -> (r: String)
    ensures
        r@ == slice_of(cells.deep_view(), terms.deep_view(), own@),
{
    let at = first_normal_cell(cells, own);
    if at >= cells.len() {
        return String::new();
    }
    let start: usize = at + 1;
    let ghost rest = cells.deep_view().skip(start as int);
    let ghost p = rival_cell(terms.deep_view(), own@);
    let mut end: usize = start;
    while end < cells.len()
        invariant
            start <= end <= cells.len(),
            start == at + 1,
            at == first_index(cells.deep_view(), normal_of(own@)),
            rest == cells.deep_view().skip(start as int),
            p == rival_cell(terms.deep_view(), own@),
            forall|j: int| 0 <= j < end - start ==> !p(#[trigger] rest[j]),
        decreases cells.len() - end,
    {
        if is_rival_cell(terms, own, cells[end].as_str()) {
            proof {
                assert(rest[end - start] == cells@[end as int]@);
                lemma_first_index_is(rest, p, end - start);
            }
            let r = join_lines(cells, start, end);
            assert(rest.take(end - start) == cells.deep_view().subrange(start as int, end as int));
            return r;
        }
        end += 1;
    }
    proof {
        lemma_first_index_is(rest, p, rest.len() as int);
        assert(rest.take(end - start) == cells.deep_view().subrange(start as int, end as int));
    }
    join_lines(cells, start, end)
}

impl DocBlocks {
    /// The index of the first paragraph that is an exact spelling of `term`,
    /// or the number of blocks.
    fn first_exact_paragraph(&self, term: &Term) -> (r: usize)
        ensures
            r == first_index(self@, exact_paragraph(term@)),
            r <= self.blocks.len(),
    {
        let ghost all = self@;
        let ghost p = exact_paragraph(term@);
        let mut i: usize = 0;
        while i < self.blocks.len()
            invariant
                i <= self.blocks.len(),
                all == self@,
                p == exact_paragraph(term@),
                forall|j: int| 0 <= j < i ==> !p(#[trigger] all[j]),
            decreases self.blocks.len() - i,
        {
            let found = match &self.blocks[i] {
                Block::Paragraph(text) => term.matches_exact(text.as_str()),
                Block::Table(_) => false,
            };
            if found {
                proof {
                    lemma_first_index_is(all, p, i as int);
                }
                return i;
            }
            i += 1;
        }
        proof {
            lemma_first_index_is(all, p, all.len() as int);
        }
        i
    }

    /// The index of the first block that matches `term` in normal form, as a
    /// paragraph or in a cell, or the number of blocks.
    fn first_normal_block(&self, term: &Term) -> (r: usize)
        ensures
            r == first_index(self@, normal_block(term@)),
            r <= self.blocks.len(),
    {
        let ghost all = self@;
        let ghost p = normal_block(term@);
        let mut i: usize = 0;
        while i < self.blocks.len()
            invariant
                i <= self.blocks.len(),
                all == self@,
                p == normal_block(term@),
                forall|j: int| 0 <= j < i ==> !p(#[trigger] all[j]),
            decreases self.blocks.len() - i,
        {
            let found = match &self.blocks[i] {
                Block::Paragraph(text) => term.deep_matches(text.as_str()),
                Block::Table(rows) => {
                    let cells = flatten(rows);
                    first_normal_cell(&cells, term) < cells.len()
                },
            };
            if found {
                proof {
                    lemma_first_index_is(all, p, i as int);
                }
                return i;
            }
            i += 1;
        }
        proof {
            lemma_first_index_is(all, p, all.len() as int);
        }
        i
    }

    /// The content of the block behind block `k`.
    fn content_behind(&self, k: usize) -> (r: String)
        requires
            k < self.blocks.len(),
        ensures
            r@ == following(self@, k as int),
    {
        if k + 1 < self.blocks.len() {
            block_content(&self.blocks[k + 1])
        } else {
            String::new()
        }
    }

    /// The text of the section that `own` names, where `terms` are all the
    /// sections looked for.
    pub fn locate_section(&self, terms: &Vec<Term>, own: &Term) -> (r: String)
        ensures
            r@ == section_text(self@, terms.deep_view(), own@),
    {
        let exact = self.first_exact_paragraph(own);
        if exact < self.blocks.len() {
            return self.content_behind(exact);
        }
        let normal = self.first_normal_block(own);
        if normal >= self.blocks.len() {
            return String::new();
        }
        match &self.blocks[normal] {
            Block::Paragraph(_) => self.content_behind(normal),
            Block::Table(rows) => {
                let cells = flatten(rows);
                slice_table(&cells, terms, own)
            },
        }
    }
}

/// The texts of the sections that `terms` name, one for each term and in the
/// order of `terms`. A section that the document does not hold is empty.
pub fn locate_sections(blocks: &DocBlocks, terms: &Vec<Term>) -> (r: Vec<String>)
    ensures
        r.deep_view() == section_values(blocks@, terms.deep_view()),
        r@.len() == terms@.len(),
{
    let mut r: Vec<String> = Vec::new();
    let mut i: usize = 0;
    while i < terms.len()
        invariant
            i <= terms.len(),
            r@.len() == i,
            forall|j: int|
                0 <= j < i ==> (#[trigger] r@[j])@ == section_text(
                    blocks@,
                    terms.deep_view(),
                    terms.deep_view()[j],
                ),
        decreases terms.len() - i,
    {
        let text = blocks.locate_section(terms, &terms[i]);
        r.push(text);
        i += 1;
    }
    assert(r.deep_view() =~= section_values(blocks@, terms.deep_view()));
    r
}

/// The sections that reports usually hold, in the order in which they stand
/// in a report.
pub open spec fn standard_section_terms() -> Seq<Seq<Seq<char>>> {
    seq![
        seq![
            "IDENTIFICATION OF IRREGULARITIES"@,
            "IDENTIFICATION OF NON-COMPLIANCE / IRREGULARITIES"@,
            "SECTION F:  IDENTIFICATION OF NON-COMPLIANCE / IRREGULARITIES"@,
        ],
        seq!["AREAS OF GOOD PRACTICE / INNOVATION"@],
        seq!["AREAS THAT REQUIRE INTERVENTION AND SUPPORT"@],
        seq!["RECOMMENDATIONS"@, "RECOMMENDATIONS FOR IMPROVEMENT"@],
        seq!["CONCLUSION"@],
    ]
}

/// The sections that reports usually hold, in the order in which they stand
/// in a report.
pub fn section_terms() -> (r: Vec<Term>)
    ensures
        r.deep_view() == standard_section_terms(),
{
    let other: &'static [&'static str] = &[
        "IDENTIFICATION OF NON-COMPLIANCE / IRREGULARITIES",
        "SECTION F:  IDENTIFICATION OF NON-COMPLIANCE / IRREGULARITIES",
    ];
    let mut r: Vec<Term> = Vec::new();
    r.push(Term::Many { main: "IDENTIFICATION OF IRREGULARITIES", other });
    r.push(Term::Single("AREAS OF GOOD PRACTICE / INNOVATION"));
    r.push(Term::Single("AREAS THAT REQUIRE INTERVENTION AND SUPPORT"));
    r.push(Term::Double { main: "RECOMMENDATIONS", alt: "RECOMMENDATIONS FOR IMPROVEMENT" });
    r.push(Term::Single("CONCLUSION"));
    proof {
        let want = standard_section_terms();
        assert(r.deep_view().len() == want.len());
        assert(r.deep_view()[0] =~= want[0]);
        assert(r.deep_view()[1] =~= want[1]);
        assert(r.deep_view()[2] =~= want[2]);
        assert(r.deep_view()[3] =~= want[3]);
        assert(r.deep_view()[4] =~= want[4]);
        assert(r.deep_view() =~= want);
    }
    r
}

/// The sections that are looked for where tables stand under their headings:
/// the standard ones, with the good practice a second time at the head, as
/// reports with headings in lower case spell it.
pub open spec fn headed_section_terms_standard() -> Seq<Seq<Seq<char>>> {
    seq![
        seq!["Areas of good practice / Innovation"@],
        seq![
            "IDENTIFICATION OF IRREGULARITIES"@,
            "IDENTIFICATION OF NON-COMPLIANCE / IRREGULARITIES"@,
            "SECTION F:  IDENTIFICATION OF NON-COMPLIANCE / IRREGULARITIES"@,
        ],
        seq!["AREAS OF GOOD PRACTICE / INNOVATION"@],
        seq!["AREAS THAT REQUIRE INTERVENTION AND SUPPORT"@],
        seq!["RECOMMENDATIONS"@, "RECOMMENDATIONS FOR IMPROVEMENT"@],
        seq!["CONCLUSION"@],
    ]
}

/// The sections that are looked for where tables stand under their headings,
/// in their order.
pub fn headed_section_terms() -> (r: Vec<Term>)
    ensures
        r.deep_view() == headed_section_terms_standard(),
{
    let other: &'static [&'static str] = &[
        "IDENTIFICATION OF NON-COMPLIANCE / IRREGULARITIES",
        "SECTION F:  IDENTIFICATION OF NON-COMPLIANCE / IRREGULARITIES",
    ];
    let mut r: Vec<Term> = Vec::new();
    r.push(Term::Single("Areas of good practice / Innovation"));
    r.push(Term::Many { main: "IDENTIFICATION OF IRREGULARITIES", other });
    r.push(Term::Single("AREAS OF GOOD PRACTICE / INNOVATION"));
    r.push(Term::Single("AREAS THAT REQUIRE INTERVENTION AND SUPPORT"));
    r.push(Term::Double { main: "RECOMMENDATIONS", alt: "RECOMMENDATIONS FOR IMPROVEMENT" });
    r.push(Term::Single("CONCLUSION"));
    proof {
        let want = headed_section_terms_standard();
        assert(r.deep_view().len() == want.len());
        assert(r.deep_view()[0] =~= want[0]);
        assert(r.deep_view()[1] =~= want[1]);
        assert(r.deep_view()[2] =~= want[2]);
        assert(r.deep_view()[3] =~= want[3]);
        assert(r.deep_view()[4] =~= want[4]);
        assert(r.deep_view()[5] =~= want[5]);
        assert(r.deep_view() =~= want);
    }
    r
}

/// The texts of the standard sections of a document, in their order.
pub fn read_body_info(blocks: &DocBlocks) -> (r: Vec<String>)
    ensures
        r.deep_view() == section_values(blocks@, standard_section_terms()),
        r@.len() == 5,
{
    let terms = section_terms();
    locate_sections(blocks, &terms)
}

/// Locating the sections again in the same blocks gives the same texts: what
/// is located is a function of the blocks and the terms alone, with one text
/// for each term.
pub proof fn lemma_locate_sections_repeatable(
    blocks: Seq<BlockView>,
    terms: Seq<Seq<Seq<char>>>,
    first: Seq<Seq<char>>,
    second: Seq<Seq<char>>,
)
    requires
        first == section_values(blocks, terms),
        second == section_values(blocks, terms),
    ensures
        first == second,
        first.len() == terms.len(),
{
}

/// In a table that several sections share, the value of a section ends at the
/// label of the next section: it is made of the cells between the two labels,
/// and nothing that stands at or behind the next label has a part in it.
pub proof fn lemma_slice_stops_at_next_label(
    head: Seq<Seq<char>>,
    next: Seq<char>,
    tail: Seq<Seq<char>>,
    terms: Seq<Seq<Seq<char>>>,
    own: Seq<Seq<char>>,
)
    requires
        first_index(head, normal_of(own)) < head.len(),
        forall|i: int|
            first_index(head, normal_of(own)) < i < head.len() ==> !any(
                terms,
                rival_for(own, #[trigger] head[i]),
            ),
        any(terms, rival_for(own, next)),
    ensures
        slice_of(head.push(next) + tail, terms, own) == lines(
            head.skip(first_index(head, normal_of(own)) + 1),
        ),
{
    let cells = head.push(next) + tail;
    let p = first_index(head, normal_of(own));
    lemma_first_index(head, normal_of(own));
    assert forall|i: int| 0 <= i < p implies !normal_of(own)(#[trigger] cells[i]) by {
        assert(cells[i] == head[i]);
    }
    assert(cells[p] == head[p]);
    lemma_first_index_is(cells, normal_of(own), p);
    let rest = cells.skip(p + 1);
    let q = head.len() - (p + 1);
    let rival = rival_cell(terms, own);
    assert forall|i: int| 0 <= i < q implies !rival(#[trigger] rest[i]) by {
        assert(rest[i] == head[i + p + 1]);
    }
    assert(rest[q] == next);
    lemma_first_index_is(rest, rival, q);
    assert(rest.take(q) == head.skip(p + 1));
}

/// Where no block matches a term, neither exactly nor in normal form, the
/// text of its section is empty.
pub proof fn lemma_unmatched_section_is_empty(
    blocks: Seq<BlockView>,
    terms: Seq<Seq<Seq<char>>>,
    own: Seq<Seq<char>>,
)
    requires
        !any(blocks, exact_paragraph(own)),
        !any(blocks, normal_block(own)),
    ensures
        section_text(blocks, terms, own) == Seq::<char>::empty(),
{
    lemma_first_index(blocks, exact_paragraph(own));
    lemma_first_index(blocks, normal_block(own));
}

} // verus!
