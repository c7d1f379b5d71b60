use synth_core::{
    assemble_text, extract_decoded, Document, DocumentChild, ExtractError, Paragraph,
    ParagraphChild, Run, RunChild,
};

fn text(s: &str) -> RunChild {
    RunChild::Text(s.to_string())
}

fn run(children: Vec<RunChild>) -> ParagraphChild {
    ParagraphChild::Run(Run { children })
}

fn para(children: Vec<ParagraphChild>) -> DocumentChild {
    DocumentChild::Paragraph(Paragraph { children })
}

fn decode(bytes: &[u8]) -> Option<Document> {
    let docx = docx_rs::read_docx(bytes).ok()?;
    let mut children = Vec::new();
    for c in docx.document.children {
        match c {
            docx_rs::DocumentChild::Paragraph(p) => {
                let mut pcs = Vec::new();
                for pc in p.children {
                    match pc {
                        docx_rs::ParagraphChild::Run(r) => {
                            let mut rcs = Vec::new();
                            for rc in r.children {
                                match rc {
                                    docx_rs::RunChild::Text(t) => rcs.push(RunChild::Text(t.text)),
                                    _ => rcs.push(RunChild::Other),
                                }
                            }
                            pcs.push(run(rcs));
                        }
                        _ => pcs.push(ParagraphChild::Other),
                    }
                }
                children.push(para(pcs));
            }
            _ => children.push(DocumentChild::Other),
        }
    }
    Some(Document { children })
}

fn extract_text(bytes: &[u8]) -> Result<String, ExtractError> {
    extract_decoded(decode(bytes))
}

fn packed(docx: docx_rs::Docx) -> Vec<u8> {
    let mut cursor = std::io::Cursor::new(Vec::new());
    docx.build().pack(&mut cursor).unwrap();
    cursor.into_inner()
}

#[test]
fn empty_document_gives_empty_text() {
    let doc = Document { children: vec![] };
    assert_eq!(assemble_text(&doc), "");
}

#[test]
fn document_without_paragraphs_gives_empty_text() {
    let doc = Document { children: vec![DocumentChild::Other, DocumentChild::Other] };
    assert_eq!(assemble_text(&doc), "");
}

#[test]
fn paragraphs_give_one_line_each_in_order() {
    let doc = Document {
        children: vec![
            para(vec![run(vec![text("first")])]),
            para(vec![run(vec![text("second")])]),
            para(vec![run(vec![text("third")])]),
        ],
    };
    let out = assemble_text(&doc);
    assert_eq!(out.matches('\n').count(), 3);
    let lines: Vec<&str> = out.lines().collect();
    assert_eq!(lines, vec!["first", "second", "third"]);
}

#[test]
fn paragraph_without_runs_gives_empty_line() {
    let doc = Document {
        children: vec![
            para(vec![run(vec![text("a")])]),
            para(vec![]),
            para(vec![ParagraphChild::Other]),
            para(vec![run(vec![text("b")])]),
        ],
    };
    assert_eq!(assemble_text(&doc), "a\n\n\nb\n");
}

#[test]
fn fragments_are_joined_without_separator() {
    let doc = Document {
        children: vec![para(vec![
            run(vec![text("ab"), text("cd")]),
            run(vec![text("ef"), text(""), text("gh")]),
        ])],
    };
    assert_eq!(assemble_text(&doc), "abcdefgh\n");
}

#[test]
fn other_nodes_are_skipped() {
    let doc = Document {
        children: vec![
            DocumentChild::Other,
            para(vec![
                ParagraphChild::Other,
                run(vec![text("x"), RunChild::Other, text("y")]),
                ParagraphChild::Other,
                run(vec![RunChild::Other]),
            ]),
            DocumentChild::Other,
            para(vec![run(vec![text("z")])]),
        ],
    };
    assert_eq!(assemble_text(&doc), "xy\nz\n");
}

#[test]
fn hello_world_example() {
    let doc = Document {
        children: vec![
            para(vec![run(vec![text("Hello ")]), run(vec![text("World")])]),
            para(vec![]),
            para(vec![run(vec![text("Bye")])]),
        ],
    };
    assert_eq!(assemble_text(&doc), "Hello World\n\nBye\n");
}

#[test]
fn malformed_bytes_fail() {
    assert_eq!(extract_text(b"this is not a document"), Err(ExtractError::ParseError));
}

#[test]
fn empty_bytes_fail() {
    assert_eq!(extract_text(&[]), Err(ExtractError::ParseError));
}

#[test]
fn truncated_archive_fails() {
    let bytes = packed(
        docx_rs::Docx::new()
            .add_paragraph(docx_rs::Paragraph::new().add_run(docx_rs::Run::new().add_text("Hi"))),
    );
    let half = &bytes[..bytes.len() / 2];
    assert_eq!(extract_text(half), Err(ExtractError::ParseError));
}

#[test]
fn packed_document_round_trips() {
    let bytes = packed(
        docx_rs::Docx::new()
            .add_paragraph(
                docx_rs::Paragraph::new()
                    .add_run(docx_rs::Run::new().add_text("Hello"))
                    .add_run(docx_rs::Run::new().add_text("World")),
            )
            .add_paragraph(docx_rs::Paragraph::new())
            .add_paragraph(docx_rs::Paragraph::new().add_run(docx_rs::Run::new().add_text("Bye"))),
    );
    assert_eq!(extract_text(&bytes), Ok("HelloWorld\n\nBye\n".to_string()));
}

#[test]
fn packed_table_is_skipped() {
    let cell = docx_rs::TableCell::new()
        .add_paragraph(docx_rs::Paragraph::new().add_run(docx_rs::Run::new().add_text("cell")));
    let bytes = packed(
        docx_rs::Docx::new()
            .add_paragraph(docx_rs::Paragraph::new().add_run(docx_rs::Run::new().add_text("before")))
            .add_table(docx_rs::Table::new(vec![docx_rs::TableRow::new(vec![cell])]))
            .add_paragraph(docx_rs::Paragraph::new().add_run(docx_rs::Run::new().add_text("after"))),
    );
    assert_eq!(extract_text(&bytes), Ok("before\nafter\n".to_string()));
}

#[test]
fn nodes_without_text_anywhere_leave_text_unchanged() {
    let plain = Document {
        children: vec![
            para(vec![run(vec![text("one"), text("two")])]),
            para(vec![run(vec![text("three")])]),
        ],
    };
    let busy = Document {
        children: vec![
            DocumentChild::Other,
            para(vec![
                ParagraphChild::Other,
                run(vec![RunChild::Other, text("one"), RunChild::Other, text("two")]),
            ]),
            DocumentChild::Other,
            DocumentChild::Other,
            para(vec![run(vec![text("three"), RunChild::Other]), ParagraphChild::Other]),
            DocumentChild::Other,
        ],
    };
    assert_eq!(assemble_text(&plain), "onetwo\nthree\n");
    assert_eq!(assemble_text(&busy), assemble_text(&plain));
}

#[test]
fn failed_decoding_gives_parse_error() {
    assert_eq!(extract_decoded(None), Err(ExtractError::ParseError));
}

#[test]
fn decoded_document_gives_its_text() {
    let doc = Document { children: vec![para(vec![run(vec![text("only")])])] };
    assert_eq!(extract_decoded(Some(doc)), Ok("only\n".to_string()));
}

#[test]
fn decoded_document_without_paragraphs_gives_empty_text() {
    let doc = Document { children: vec![DocumentChild::Other] };
    assert_eq!(extract_decoded(Some(doc)), Ok(String::new()));
}
