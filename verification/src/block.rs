//! The blocks of a document, in reading order: paragraphs and two-column
//! tables.

use vstd::prelude::*;

verus! {

/// One paragraph or one table of a document.
#[derive(Debug)]
pub enum Block {
    /// The text of a paragraph.
    Paragraph(String),
    /// The rows of a table, each with the text of its first and second cell.
    Table(Vec<[String; 2]>),
}

/// A row as two texts.
pub type RowView = (Seq<char>, Seq<char>);

/// A block as plain text.
pub enum BlockView {
    Paragraph(Seq<char>),
    Table(Seq<RowView>),
}

/// The rows as pairs of texts.
pub open spec fn rows_view(rows: Seq<[String; 2]>) -> Seq<RowView> {
    Seq::new(rows.len(), |i: int| (rows[i]@[0]@, rows[i]@[1]@))
}

impl View for Block {
    type V = BlockView;

    open spec fn view(&self) -> BlockView {
        match *self {
            Block::Paragraph(text) => BlockView::Paragraph(text@),
            Block::Table(rows) => BlockView::Table(rows_view(rows@)),
        }
    }
}

/// The cells of the rows in reading order: row by row, first cell before
/// second.
pub open spec fn cells_of(rows: Seq<RowView>) -> Seq<Seq<char>>
    decreases rows.len(),
{
    if rows.len() == 0 {
        Seq::empty()
    } else {
        cells_of(rows.drop_last()).push(rows.last().0).push(rows.last().1)
    }
}

/// The texts of `cells` that are not empty, in order.
pub open spec fn nonempty(cells: Seq<Seq<char>>) -> Seq<Seq<char>> {
    cells.filter(|c: Seq<char>| c.len() > 0)
}

/// The blocks of one document, in reading order.
#[derive(Debug)]
pub struct DocBlocks {
    pub blocks: Vec<Block>,
}

impl View for DocBlocks {
    type V = Seq<BlockView>;

    open spec fn view(&self) -> Seq<BlockView> {
        Seq::new(self.blocks@.len(), |i: int| self.blocks@[i]@)
    }
}

/// The cells of `rows` in reading order.
pub fn flatten(rows: &Vec<[String; 2]>) -> (cells: Vec<String>)
    ensures
        cells.deep_view() == cells_of(rows_view(rows@)),
{
    let mut cells: Vec<String> = Vec::new();
    let mut i: usize = 0;
    let ghost all = rows_view(rows@);
    proof {
        assert(all.take(0) == Seq::<RowView>::empty());
        assert(cells.deep_view() == Seq::<Seq<char>>::empty());
    }
    while i < rows.len()
        invariant
            i <= rows.len(),
            all == rows_view(rows@),
            cells.deep_view() == cells_of(all.take(i as int)),
        decreases rows.len() - i,
    {
        let ghost before = cells.deep_view();
        let row = &rows[i];
        let first = row[0].clone();
        let second = row[1].clone();
        cells.push(first);
        cells.push(second);
        proof {
            let upto = all.take(i + 1);
            assert(upto.drop_last() == all.take(i as int));
            assert(upto.last() == all[i as int]);
            assert(cells.deep_view() == before.push(first@).push(second@));
        }
        i += 1;
    }
    proof {
        assert(all.take(rows.len() as int) == all);
    }
    cells
}

} // verus!
