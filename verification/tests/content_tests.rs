use doc_read::block::{flatten, Block};
use doc_read::content::{
    build, collect_tables, extract_paragraph_text, extract_text_from_cell, paragraph_to_text,
    row_texts, CellChild, Node, Paragraph, ParagraphChild, RunChild, Table, TableCell, TableRow,
};

fn run(texts: &[&str]) -> ParagraphChild {
    ParagraphChild::Run(texts.iter().map(|t| RunChild::Text(t.to_string())).collect())
}

fn para(text: &str) -> Paragraph {
    Paragraph { children: vec![run(&[text])] }
}

fn cell(text: &str) -> TableCell {
    TableCell { children: vec![CellChild::Paragraph(para(text))] }
}

fn plain_row(cells: &[&str]) -> TableRow {
    TableRow { cells: cells.iter().map(|c| cell(c)).collect() }
}

fn pair(a: &str, b: &str) -> [String; 2] {
    [a.to_string(), b.to_string()]
}

#[test]
fn paragraph_text_joins_all_runs() {
    let p = Paragraph {
        children: vec![
            run(&["Wes", "tern"]),
            ParagraphChild::Other,
            ParagraphChild::Run(vec![RunChild::Other, RunChild::Text(" Cape".to_string())]),
        ],
    };
    assert_eq!(extract_paragraph_text(p), "Western Cape");
    assert_eq!(extract_paragraph_text(Paragraph { children: vec![] }), "");
}

#[test]
fn paragraph_to_text_takes_all_run_text() {
    let p = Paragraph {
        children: vec![
            run(&["Wes", "tern"]),
            ParagraphChild::Other,
            ParagraphChild::Run(vec![RunChild::Other, RunChild::Text(" Cape".to_string())]),
            ParagraphChild::Run(vec![RunChild::Other]),
        ],
    };
    assert_eq!(paragraph_to_text(&p), "Western Cape");
}

#[test]
fn cell_text_for_display_joins_paragraphs_with_commas() {
    let c = TableCell {
        children: vec![
            CellChild::Paragraph(para("one")),
            CellChild::Other,
            CellChild::Paragraph(para("two")),
        ],
    };
    assert_eq!(extract_text_from_cell(&c), "one,two");
    assert_eq!(extract_text_from_cell(&TableCell { children: vec![] }), "");
    let r = TableRow { cells: vec![c, cell("x")] };
    assert_eq!(row_texts(&r), vec!["one,two".to_string(), "x".to_string()]);
}

#[test]
fn rows_keep_two_columns_and_drop_empty_rows() {
    let table = Table {
        rows: vec![
            plain_row(&["PROVINCE", "Western Cape", "dropped"]),
            plain_row(&["", ""]),
            plain_row(&["only first"]),
            TableRow { cells: vec![] },
            plain_row(&["", "only second"]),
        ],
    };
    assert_eq!(
        collect_tables(table),
        vec![pair("PROVINCE", "Western Cape"), pair("only first", ""), pair("", "only second")]
    );
}

#[test]
fn cell_text_is_the_text_of_all_its_paragraphs() {
    let table = Table {
        rows: vec![TableRow {
            cells: vec![
                TableCell {
                    children: vec![CellChild::Paragraph(para("a")), CellChild::Paragraph(para("b"))],
                },
                cell("c"),
            ],
        }],
    };
    assert_eq!(collect_tables(table), vec![pair("ab", "c")]);
}

#[test]
fn nested_tables_follow_the_row_that_holds_them() {
    let inner = Table { rows: vec![plain_row(&["in1", "in2"]), plain_row(&["in3", ""])] };
    let deep = Table { rows: vec![plain_row(&["deep", "er"])] };
    let table = Table {
        rows: vec![
            TableRow {
                cells: vec![
                    TableCell {
                        children: vec![CellChild::Paragraph(para("outer")), CellChild::Table(inner)],
                    },
                    TableCell { children: vec![CellChild::Table(deep)] },
                    TableCell {
                        children: vec![CellChild::Table(Table {
                            rows: vec![plain_row(&["third", "column"])],
                        })],
                    },
                ],
            },
            plain_row(&["last", "row"]),
        ],
    };
    assert_eq!(
        collect_tables(table),
        vec![
            pair("outer", ""),
            pair("in1", "in2"),
            pair("in3", ""),
            pair("deep", "er"),
            pair("last", "row")
        ]
    );
}

#[test]
fn build_keeps_reading_order_and_drops_what_is_empty() {
    let nodes = vec![
        Node::Paragraph(para("Title")),
        Node::Paragraph(para("   ")),
        Node::Other,
        Node::Table(Table { rows: vec![plain_row(&["", ""])] }),
        Node::Table(Table { rows: vec![plain_row(&["PROVINCE", "Gauteng"])] }),
        Node::Paragraph(Paragraph { children: vec![] }),
        Node::Paragraph(para("CONCLUSION")),
    ];
    let doc = build(nodes);
    assert_eq!(doc.blocks.len(), 3);
    assert!(matches!(&doc.blocks[0], Block::Paragraph(t) if t == "Title"));
    assert!(matches!(&doc.blocks[1], Block::Table(rows) if rows == &vec![pair("PROVINCE", "Gauteng")]));
    assert!(matches!(&doc.blocks[2], Block::Paragraph(t) if t == "CONCLUSION"));
}

#[test]
fn build_of_nothing_is_nothing() {
    assert_eq!(build(Vec::new()).blocks.len(), 0);
}

#[test]
fn flatten_goes_row_by_row() {
    assert_eq!(
        flatten(&vec![pair("a", "b"), pair("c", ""), pair("", "d")]),
        vec!["a", "b", "c", "", "", "d"]
    );
}
