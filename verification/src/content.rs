//! The content tree of a document as its parser hands it over, and the
//! building of blocks from it.

use vstd::prelude::*;
use vstd::string::StringExecFns;
use crate::block::{rows_view, Block, BlockView, DocBlocks, RowView};
use crate::text::{blank, is_blank, join, joined};

verus! {

/// One piece of a run: text, or anything else that a run can hold (an image,
/// a field, a break).
#[derive(Debug)]
pub enum RunChild {
    Text(String),
    Other,
}

/// One piece of a paragraph: a run with its pieces, or anything else.
#[derive(Debug)]
pub enum ParagraphChild {
    Run(Vec<RunChild>),
    Other,
}

/// A paragraph.
#[derive(Debug)]
pub struct Paragraph {
    pub children: Vec<ParagraphChild>,
}

/// One piece of a table cell: a paragraph, a table nested in the cell, or
/// anything else.
#[derive(Debug)]
pub enum CellChild {
    Paragraph(Paragraph),
    Table(Table),
    Other,
}

/// A table cell.
#[derive(Debug)]
pub struct TableCell {
    pub children: Vec<CellChild>,
}

/// A table row.
#[derive(Debug)]
pub struct TableRow {
    pub cells: Vec<TableCell>,
}

/// A table.
#[derive(Debug)]
pub struct Table {
    pub rows: Vec<TableRow>,
}

/// One node at the top level of a document.
#[derive(Debug)]
pub enum Node {
    Paragraph(Paragraph),
    Table(Table),
    Other,
}

/// The text of one piece of a run.
pub open spec fn piece_text(piece: RunChild) -> Seq<char> {
    match piece {
        RunChild::Text(t) => t@,
        RunChild::Other => Seq::empty(),
    }
}

/// The text of a run: the texts of its pieces, one behind the other.
pub open spec fn run_text(pieces: Seq<RunChild>) -> Seq<char>
    decreases pieces.len(),
{
    if pieces.len() == 0 {
        Seq::empty()
    } else {
        run_text(pieces.drop_last()) + piece_text(pieces.last())
    }
}

/// The text of one piece of a paragraph.
pub open spec fn child_text(child: ParagraphChild) -> Seq<char> {
    match child {
        ParagraphChild::Run(pieces) => run_text(pieces@),
        ParagraphChild::Other => Seq::empty(),
    }
}

/// The text of the pieces of a paragraph, one behind the other.
pub open spec fn children_text(children: Seq<ParagraphChild>) -> Seq<char>
    decreases children.len(),
{
    if children.len() == 0 {
        Seq::empty()
    } else {
        children_text(children.drop_last()) + child_text(children.last())
    }
}

/// The text of a paragraph: the text of all its runs, in order.
pub open spec fn paragraph_text(p: Paragraph) -> Seq<char> {
    children_text(p.children@)
}

/// Appends the text of a run to `out`.
fn push_run_text(out: &mut String, pieces: &Vec<RunChild>)
    ensures
        final(out)@ == old(out)@ + run_text(pieces@),
{
    let mut i: usize = 0;
    proof {
        assert(pieces@.take(0) == Seq::<RunChild>::empty());
        assert(out@ + Seq::<char>::empty() == out@);
    }
    while i < pieces.len()
        invariant
            i <= pieces.len(),
            out@ == old(out)@ + run_text(pieces@.take(i as int)),
        decreases pieces.len() - i,
    {
        proof {
            let upto = pieces@.take(i + 1);
            assert(upto.drop_last() == pieces@.take(i as int));
            assert(upto.last() == pieces@[i as int]);
            let sofar = run_text(pieces@.take(i as int));
            let next = piece_text(pieces@[i as int]);
            assert(old(out)@ + sofar + next == old(out)@ + (sofar + next));
            assert(sofar + Seq::<char>::empty() == sofar);
        }
        match &pieces[i] {
            RunChild::Text(t) => {
                out.append(t.as_str());
            },
            RunChild::Other => {},
        }
        i += 1;
    }
    proof {
        assert(pieces@.take(pieces@.len() as int) == pieces@);
    }
}

/// Appends the text of a paragraph to `out`.
pub fn push_paragraph_text(out: &mut String, p: &Paragraph)
    ensures
        final(out)@ == old(out)@ + paragraph_text(*p),
{
    let children = &p.children;
    let mut i: usize = 0;
    proof {
        assert(children@.take(0) == Seq::<ParagraphChild>::empty());
        assert(out@ + Seq::<char>::empty() == out@);
    }
    while i < children.len()
        invariant
            i <= children.len(),
            out@ == old(out)@ + children_text(children@.take(i as int)),
        decreases children.len() - i,
    {
        proof {
            let upto = children@.take(i + 1);
            assert(upto.drop_last() == children@.take(i as int));
            assert(upto.last() == children@[i as int]);
            let sofar = children_text(children@.take(i as int));
            let next = child_text(children@[i as int]);
            assert(old(out)@ + sofar + next == old(out)@ + (sofar + next));
            assert(sofar + Seq::<char>::empty() == sofar);
        }
        match &children[i] {
            ParagraphChild::Run(pieces) => {
                push_run_text(out, pieces);
            },
            ParagraphChild::Other => {},
        }
        i += 1;
    }
    proof {
        assert(children@.take(children@.len() as int) == children@);
    }
}

/// The text of a paragraph: the text of all its runs, in order. What a run
/// holds beside text is passed over.
pub fn extract_paragraph_text(p: Paragraph) -> (r: String)
    ensures
        r@ == paragraph_text(p),
{
    let mut r = String::new();
    push_paragraph_text(&mut r, &p);
    assert(Seq::<char>::empty() + paragraph_text(p) == paragraph_text(p));
    r
}

/// The text of one piece of a cell: that of a paragraph, nothing of anything
/// else.
pub open spec fn cell_child_text(child: CellChild) -> Seq<char> {
    match child {
        CellChild::Paragraph(p) => paragraph_text(p),
        _ => Seq::empty(),
    }
}

/// The text of the paragraphs among the pieces of a cell, one behind the
/// other.
pub open spec fn cell_text(children: Seq<CellChild>) -> Seq<char>
    decreases children.len(),
{
    if children.len() == 0 {
        Seq::empty()
    } else {
        cell_text(children.drop_last()) + cell_child_text(children.last())
    }
}

/// The text of cell `k` of a row, or the empty text where the row has no such
/// cell.
pub open spec fn cell_text_at(cells: Seq<TableCell>, k: int) -> Seq<char> {
    if 0 <= k < cells.len() {
        cell_text(cells[k].children@)
    } else {
        Seq::empty()
    }
}

/// The row that a table row gives by itself: the texts of its first two
/// cells, or no row where both are empty.
pub open spec fn own_row(row: TableRow) -> Seq<RowView> {
    let first = cell_text_at(row.cells@, 0);
    let second = cell_text_at(row.cells@, 1);
    if first.len() == 0 && second.len() == 0 {
        Seq::empty()
    } else {
        seq![(first, second)]
    }
}

/// The rows of a table: those of its rows in order, each with the rows of the
/// tables nested in it.
pub open spec fn table_rows(t: Table) -> Seq<RowView>
    decreases t,
{
    rows_of(t.rows@)
}

/// The rows that a sequence of table rows gives.
pub open spec fn rows_of(rows: Seq<TableRow>) -> Seq<RowView>
    decreases rows,
{
    if rows.len() == 0 {
        Seq::empty()
    } else {
        rows_of(rows.drop_last()) + row_rows(rows.last())
    }
}

/// The rows that one table row gives: its own row, then the rows of the
/// tables nested in its first cell, then of those in its second cell. Cells
/// behind the second give nothing.
pub open spec fn row_rows(row: TableRow) -> Seq<RowView>
    decreases row,
{
    own_row(row) + nested_at(row.cells@, 0) + nested_at(row.cells@, 1)
}

/// The rows of the tables nested in cell `k` of a row.
pub open spec fn nested_at(cells: Seq<TableCell>, k: int) -> Seq<RowView>
    decreases cells,
{
    if 0 <= k < cells.len() {
        nested_in(cells[k].children@)
    } else {
        Seq::empty()
    }
}

/// The rows of the tables among the pieces of a cell, in order.
pub open spec fn nested_in(children: Seq<CellChild>) -> Seq<RowView>
    decreases children,
{
    if children.len() == 0 {
        Seq::empty()
    } else {
        nested_in(children.drop_last()) + (match children.last() {
            CellChild::Table(t) => table_rows(t),
            _ => Seq::empty(),
        })
    }
}

/// The text of cell `k` of a row.
fn text_of_cell(cells: &Vec<TableCell>, k: usize) -> (r: String)
    ensures
        r@ == cell_text_at(cells@, k as int),
{
    let mut r = String::new();
    if k >= cells.len() {
        return r;
    }
    let children = &cells[k].children;
    let mut i: usize = 0;
    proof {
        assert(children@.take(0) == Seq::<CellChild>::empty());
    }
    while i < children.len()
        invariant
            i <= children.len(),
            r@ == cell_text(children@.take(i as int)),
        decreases children.len() - i,
    {
        proof {
            let upto = children@.take(i + 1);
            assert(upto.drop_last() == children@.take(i as int));
            assert(upto.last() == children@[i as int]);
            assert(r@ + Seq::<char>::empty() == r@);
        }
        match &children[i] {
            CellChild::Paragraph(p) => {
                push_paragraph_text(&mut r, p);
            },
            _ => {},
        }
        i += 1;
    }
    proof {
        assert(children@.take(children@.len() as int) == children@);
    }
    r
}

/// Appends the rows of `table` to `out`.
fn collect_table(table: &Table, out: &mut Vec<[String; 2]>)
    ensures
        rows_view(final(out)@) == rows_view(old(out)@) + table_rows(*table),
    decreases table, 1nat,
{
    let rows = &table.rows;
    let mut i: usize = 0;
    proof {
        assert(rows@.take(0) == Seq::<TableRow>::empty());
        assert(rows_view(out@) + Seq::<RowView>::empty() == rows_view(out@));
    }
    while i < rows.len()
        invariant
            i <= rows.len(),
            rows == &table.rows,
            rows_view(out@) == rows_view(old(out)@) + rows_of(rows@.take(i as int)),
        decreases rows.len() - i,
    {
        proof {
            let upto = rows@.take(i + 1);
            assert(upto.drop_last() == rows@.take(i as int));
            assert(upto.last() == rows@[i as int]);
            let sofar = rows_of(rows@.take(i as int));
            let next = row_rows(rows@[i as int]);
            assert(rows_view(old(out)@) + sofar + next == rows_view(old(out)@) + (sofar + next));
        }
        collect_row(&rows[i], out);
        i += 1;
    }
    proof {
        assert(rows@.take(rows@.len() as int) == rows@);
    }
}

/// Appends the rows that `row` gives to `out`.
fn collect_row(row: &TableRow, out: &mut Vec<[String; 2]>)
    ensures
        rows_view(final(out)@) == rows_view(old(out)@) + row_rows(*row),
    decreases row, 1nat,
{
    let first = text_of_cell(&row.cells, 0);
    let second = text_of_cell(&row.cells, 1);
    let ghost start = rows_view(out@);
    if !(first.as_str().is_empty() && second.as_str().is_empty()) {
        let ghost pair = (first@, second@);
        out.push([first, second]);
        assert(rows_view(out@) =~= start.push(pair));
        assert(start.push(pair) == start + own_row(*row));
    } else {
        assert(start + own_row(*row) == start);
    }
    let ghost own = rows_view(out@);
    if row.cells.len() > 0 {
        collect_nested(&row.cells[0].children, out);
    } else {
        assert(own + Seq::<RowView>::empty() == own);
    }
    let ghost one = rows_view(out@);
    if row.cells.len() > 1 {
        collect_nested(&row.cells[1].children, out);
    } else {
        assert(one + Seq::<RowView>::empty() == one);
    }
    proof {
        let a = own_row(*row);
        let b = nested_at(row.cells@, 0);
        let c = nested_at(row.cells@, 1);
        assert(start + a + b + c == start + (a + b + c));
    }
}

/// Appends the rows of the tables among `children` to `out`.
fn collect_nested(children: &Vec<CellChild>, out: &mut Vec<[String; 2]>)
    ensures
        rows_view(final(out)@) == rows_view(old(out)@) + nested_in(children@),
    decreases children, 0nat,
{
    let mut i: usize = 0;
    proof {
        assert(children@.take(0) == Seq::<CellChild>::empty());
        assert(rows_view(out@) + Seq::<RowView>::empty() == rows_view(out@));
    }
    while i < children.len()
        invariant
            i <= children.len(),
            rows_view(out@) == rows_view(old(out)@) + nested_in(children@.take(i as int)),
        decreases children.len() - i,
    {
        let ghost before = rows_view(out@);
        proof {
            let upto = children@.take(i + 1);
            assert(upto.drop_last() == children@.take(i as int));
            assert(upto.last() == children@[i as int]);
            assert(before + Seq::<RowView>::empty() == before);
        }
        match &children[i] {
            CellChild::Table(t) => {
                collect_table(t, out);
                proof {
                    let sofar = nested_in(children@.take(i as int));
                    assert(rows_view(old(out)@) + sofar + table_rows(*t) == rows_view(old(out)@)
                        + (sofar + table_rows(*t)));
                }
            },
            _ => {},
        }
        i += 1;
    }
    proof {
        assert(children@.take(children@.len() as int) == children@);
    }
}

/// The rows of a table, each with the text of its first and its second cell.
///
/// A row whose two cells are both empty is left out; cells behind the second
/// are dropped; the rows of a table nested in one of the first two cells
/// follow the row that holds it.
pub fn collect_tables(table: Table) -> (r: Vec<[String; 2]>)
    ensures
        rows_view(r@) == table_rows(table),
        tidy_rows(rows_view(r@)),
{
    proof {
        lemma_table_rows_tidy(table);
    }
    let mut r: Vec<[String; 2]> = Vec::new();
    collect_table(&table, &mut r);
    assert(rows_view(Seq::<[String; 2]>::empty()) + table_rows(table) =~= table_rows(table));
    r
}

/// The blocks that one node gives: a paragraph that is not blank gives one
/// paragraph block, a table with at least one row one table block, anything
/// else nothing.
pub open spec fn node_blocks(node: Node) -> Seq<BlockView> {
    match node {
        Node::Paragraph(p) => if is_blank(paragraph_text(p)) {
            Seq::empty()
        } else {
            seq![BlockView::Paragraph(paragraph_text(p))]
        },
        Node::Table(t) => if table_rows(t).len() == 0 {
            Seq::empty()
        } else {
            seq![BlockView::Table(table_rows(t))]
        },
        Node::Other => Seq::empty(),
    }
}

/// The blocks that the nodes give, in the order of the nodes.
pub open spec fn built(nodes: Seq<Node>) -> Seq<BlockView>
    decreases nodes.len(),
{
    if nodes.len() == 0 {
        Seq::empty()
    } else {
        built(nodes.drop_last()) + node_blocks(nodes.last())
    }
}

/// Whether each row has text in one of its cells.
pub open spec fn tidy_rows(rows: Seq<RowView>) -> bool {
    forall|i: int| 0 <= i < rows.len() ==> (#[trigger] rows[i]).0.len() > 0 || rows[i].1.len() > 0
}

/// Whether a block is as the builder makes it: a paragraph is not blank, a
/// table has at least one row, and each of its rows has text in one of its
/// cells.
pub open spec fn tidy_block(b: BlockView) -> bool {
    match b {
        BlockView::Paragraph(text) => !is_blank(text),
        BlockView::Table(rows) => rows.len() > 0 && tidy_rows(rows),
    }
}

/// Whether all blocks are as the builder makes them.
pub open spec fn tidy(blocks: Seq<BlockView>) -> bool {
    forall|i: int| 0 <= i < blocks.len() ==> tidy_block(#[trigger] blocks[i])
}

/// The rows of a table all have text in one of their cells.
pub proof fn lemma_table_rows_tidy(t: Table)
    ensures
        tidy_rows(table_rows(t)),
    decreases t,
{
    lemma_rows_of_tidy(t.rows@);
}

/// The rows that table rows give all have text in one of their cells.
pub proof fn lemma_rows_of_tidy(rows: Seq<TableRow>)
    ensures
        tidy_rows(rows_of(rows)),
    decreases rows,
{
    if rows.len() > 0 {
        lemma_rows_of_tidy(rows.drop_last());
        lemma_row_rows_tidy(rows.last());
    }
}

/// The rows that one table row gives all have text in one of their cells.
pub proof fn lemma_row_rows_tidy(row: TableRow)
    ensures
        tidy_rows(row_rows(row)),
    decreases row,
{
    if row.cells@.len() > 0 {
        lemma_nested_in_tidy(row.cells@[0].children@);
    }
    if row.cells@.len() > 1 {
        lemma_nested_in_tidy(row.cells@[1].children@);
    }
}

/// The rows of nested tables all have text in one of their cells.
pub proof fn lemma_nested_in_tidy(children: Seq<CellChild>)
    ensures
        tidy_rows(nested_in(children)),
    decreases children,
{
    if children.len() > 0 {
        lemma_nested_in_tidy(children.drop_last());
        match children.last() {
            CellChild::Table(t) => {
                lemma_table_rows_tidy(t);
            },
            _ => {},
        }
    }
}

/// What the builder makes is tidy: no blank paragraph, no table without rows,
/// no row without text.
pub proof fn lemma_built_is_tidy(nodes: Seq<Node>)
    ensures
        tidy(built(nodes)),
    decreases nodes.len(),
{
    if nodes.len() > 0 {
        lemma_built_is_tidy(nodes.drop_last());
        match nodes.last() {
            Node::Table(t) => {
                lemma_table_rows_tidy(t);
            },
            _ => {},
        }
    }
}

/// Builds the blocks of a document from the nodes at its top level, in reading
/// order. Blank paragraphs, tables without rows and nodes of other kinds give
/// no block.
pub fn build(nodes: Vec<Node>) -> (r: DocBlocks)
    ensures
        r@ == built(nodes@),
        tidy(r@),
{
    proof {
        lemma_built_is_tidy(nodes@);
    }
    let mut blocks: Vec<Block> = Vec::new();
    let mut i: usize = 0;
    let ghost view = |v: Vec<Block>| Seq::new(v@.len(), |k: int| v@[k]@);
    proof {
        assert(nodes@.take(0) == Seq::<Node>::empty());
        assert(view(blocks) =~= Seq::<BlockView>::empty());
    }
    while i < nodes.len()
        invariant
            i <= nodes.len(),
            view == |v: Vec<Block>| Seq::new(v@.len(), |k: int| v@[k]@),
            view(blocks) == built(nodes@.take(i as int)),
        decreases nodes.len() - i,
    {
        let ghost before = view(blocks);
        proof {
            let upto = nodes@.take(i + 1);
            assert(upto.drop_last() == nodes@.take(i as int));
            assert(upto.last() == nodes@[i as int]);
            assert(before + Seq::<BlockView>::empty() == before);
        }
        match &nodes[i] {
            Node::Paragraph(p) => {
                let mut text = String::new();
                push_paragraph_text(&mut text, p);
                assert(Seq::<char>::empty() + paragraph_text(*p) == paragraph_text(*p));
                if !blank(text.as_str()) {
                    blocks.push(Block::Paragraph(text));
                    assert(view(blocks) =~= before.push(BlockView::Paragraph(paragraph_text(*p))));
                    assert(before.push(BlockView::Paragraph(paragraph_text(*p))) == before
                        + node_blocks(nodes@[i as int]));
                }
            },
            Node::Table(t) => {
                let mut rows: Vec<[String; 2]> = Vec::new();
                collect_table(t, &mut rows);
                assert(rows_view(Seq::<[String; 2]>::empty()) + table_rows(*t) =~= table_rows(*t));
                if rows.len() > 0 {
                    blocks.push(Block::Table(rows));
                    assert(view(blocks) =~= before.push(BlockView::Table(table_rows(*t))));
                    assert(before.push(BlockView::Table(table_rows(*t))) == before + node_blocks(
                        nodes@[i as int],
                    ));
                }
            },
            Node::Other => {},
        }
        i += 1;
    }
    proof {
        assert(nodes@.take(nodes@.len() as int) == nodes@);
    }
    let r = DocBlocks { blocks };
    assert(r@ =~= view(blocks));
    r
}

/// The text of a paragraph that is only lent: the text of all its runs, in
/// order. What is no run gives nothing.
pub fn paragraph_to_text(paragraph: &Paragraph) -> (r: String)
    ensures
        r@ == paragraph_text(*paragraph),
{
    let mut r = String::new();
    push_paragraph_text(&mut r, paragraph);
    assert(Seq::<char>::empty() + paragraph_text(*paragraph) == paragraph_text(*paragraph));
    r
}

/// The texts of the paragraphs among the pieces of a cell, in order.
pub open spec fn paragraph_texts(children: Seq<CellChild>) -> Seq<Seq<char>>
    decreases children.len(),
{
    if children.len() == 0 {
        Seq::empty()
    } else {
        match children.last() {
            CellChild::Paragraph(p) => paragraph_texts(children.drop_last()).push(
                paragraph_text(p),
            ),
            _ => paragraph_texts(children.drop_last()),
        }
    }
}

/// The text of a cell for display: the texts of its paragraphs, with a comma
/// between each two.
pub fn extract_text_from_cell(cell: &TableCell) -> (r: String)
    ensures
        r@ == joined(paragraph_texts(cell.children@), ","@),
{
    let children = &cell.children;
    let mut texts: Vec<String> = Vec::new();
    let mut i: usize = 0;
    proof {
        assert(children@.take(0) == Seq::<CellChild>::empty());
        assert(texts.deep_view() =~= Seq::<Seq<char>>::empty());
    }
    while i < children.len()
        invariant
            i <= children.len(),
            texts.deep_view() == paragraph_texts(children@.take(i as int)),
        decreases children.len() - i,
    {
        let ghost before = texts.deep_view();
        proof {
            let upto = children@.take(i + 1);
            assert(upto.drop_last() == children@.take(i as int));
            assert(upto.last() == children@[i as int]);
        }
        match &children[i] {
            CellChild::Paragraph(p) => {
                let mut text = String::new();
                push_paragraph_text(&mut text, p);
                assert(Seq::<char>::empty() + paragraph_text(*p) == paragraph_text(*p));
                texts.push(text);
                assert(texts.deep_view() =~= before.push(paragraph_text(*p)));
            },
            _ => {},
        }
        i += 1;
    }
    proof {
        assert(children@.take(children@.len() as int) == children@);
    }
    join(&texts, ",")
}

/// The texts of the cells of a row for display, one for each cell.
pub fn row_texts(row: &TableRow) -> (r: Vec<String>)
    ensures
        r@.len() == row.cells@.len(),
        forall|k: int|
            0 <= k < r@.len() ==> (#[trigger] r@[k])@ == joined(
                paragraph_texts(row.cells@[k].children@),
                ","@,
            ),
{
    let mut r: Vec<String> = Vec::new();
    let mut i: usize = 0;
    while i < row.cells.len()
        invariant
            i <= row.cells.len(),
            r@.len() == i,
            forall|k: int|
                0 <= k < i ==> (#[trigger] r@[k])@ == joined(
                    paragraph_texts(row.cells@[k].children@),
                    ","@,
                ),
        decreases row.cells.len() - i,
    {
        let text = extract_text_from_cell(&row.cells[i]);
        r.push(text);
        i += 1;
    }
    r
}

} // verus!
