use vstd::prelude::*;

use crate::strings::push_char;

verus! {

/// A node inside a run.
pub enum RunChild {
    /// A literal text fragment.
    Text(String),
    /// Any other run content (a break, a tab, a symbol, an image).
    Other,
}

/// A span of text sharing one formatting.
pub struct Run {
    pub children: Vec<RunChild>,
}

/// A node inside a paragraph.
pub enum ParagraphChild {
    Run(Run),
    /// Any other paragraph content (a hyperlink, a bookmark, a revision mark).
    Other,
}

pub struct Paragraph {
    pub children: Vec<ParagraphChild>,
}

/// A node at the top level of a document body.
pub enum DocumentChild {
    Paragraph(Paragraph),
    /// Any other block (a table, a section mark, an embedded object).
    Other,
}

/// The body of a document: its top-level nodes in declared order.
pub struct Document {
    pub children: Vec<DocumentChild>,
}

/// The visible text of one run child.
pub open spec fn run_child_text(c: RunChild) -> Seq<char> {
    match c {
        RunChild::Text(t) => t@,
        RunChild::Other => Seq::empty(),
    }
}

/// The text fragments of a run, concatenated in order.
pub open spec fn run_text(cs: Seq<RunChild>) -> Seq<char>
    decreases cs.len(),
{
    if cs.len() == 0 {
        Seq::empty()
    } else {
        run_text(cs.drop_last()) + run_child_text(cs.last())
    }
}

/// The text that one paragraph child contributes.
pub open spec fn paragraph_child_text(c: ParagraphChild) -> Seq<char> {
    match c {
        ParagraphChild::Run(r) => run_text(r.children@),
        ParagraphChild::Other => Seq::empty(),
    }
}

/// The text of a paragraph: the text of its runs, concatenated in order.
pub open spec fn paragraph_text(cs: Seq<ParagraphChild>) -> Seq<char>
    decreases cs.len(),
{
    if cs.len() == 0 {
        Seq::empty()
    } else {
        paragraph_text(cs.drop_last()) + paragraph_child_text(cs.last())
    }
}

/// What one top-level node contributes: a paragraph gives its text and one
/// newline, anything else gives nothing.
pub open spec fn document_child_text(c: DocumentChild) -> Seq<char> {
    match c {
        DocumentChild::Paragraph(p) => paragraph_text(p.children@) + seq!['\n'],
        DocumentChild::Other => Seq::empty(),
    }
}

/// The plain text of a document body.
pub open spec fn document_text(cs: Seq<DocumentChild>) -> Seq<char>
    decreases cs.len(),
{
    if cs.len() == 0 {
        Seq::empty()
    } else {
        document_text(cs.drop_last()) + document_child_text(cs.last())
    }
}

fn append_run(text: &mut String, run: &Run)
    ensures
        final(text)@ == old(text)@ + run_text(run.children@),
{
    let ghost start = text@;
    let mut i: usize = 0;
    while i < run.children.len()
        invariant
            i <= run.children.len(),
            text@ == start + run_text(run.children@.subrange(0, i as int)),
        decreases run.children.len() - i,
    {
        match &run.children[i] {
            RunChild::Text(t) => text.append(t.as_str()),
            RunChild::Other => {},
        }
        assert(run.children@.subrange(0, i + 1).drop_last() =~= run.children@.subrange(0, i as int));
        i += 1;
    }
    assert(run.children@.subrange(0, i as int) =~= run.children@);
}

fn append_paragraph(text: &mut String, paragraph: &Paragraph)
    ensures
        final(text)@ == old(text)@ + paragraph_text(paragraph.children@),
{
    let ghost start = text@;
    let mut i: usize = 0;
    while i < paragraph.children.len()
        invariant
            i <= paragraph.children.len(),
            text@ == start + paragraph_text(paragraph.children@.subrange(0, i as int)),
        decreases paragraph.children.len() - i,
    {
        match &paragraph.children[i] {
            ParagraphChild::Run(r) => append_run(text, r),
            ParagraphChild::Other => {},
        }
        assert(paragraph.children@.subrange(0, i + 1).drop_last()
            =~= paragraph.children@.subrange(0, i as int));
        i += 1;
    }
    assert(paragraph.children@.subrange(0, i as int) =~= paragraph.children@);
}

/// Walks the document in declared order and concatenates the text fragments
/// of every run of every paragraph, ending each paragraph with one newline.
/// Nodes of other kinds are skipped.
pub fn assemble_text(doc: &Document) -> (r: String)
    ensures
        r@ == document_text(doc.children@),
{
    let mut text = String::new();
    let mut i: usize = 0;
    while i < doc.children.len()
        invariant
            i <= doc.children.len(),
            text@ == document_text(doc.children@.subrange(0, i as int)),
        decreases doc.children.len() - i,
    {
        match &doc.children[i] {
            DocumentChild::Paragraph(p) => {
                append_paragraph(&mut text, p);
                push_char(&mut text, '\n');
            },
            DocumentChild::Other => {},
        }
        assert(doc.children@.subrange(0, i + 1).drop_last() =~= doc.children@.subrange(0, i as int));
        i += 1;
    }
    assert(doc.children@.subrange(0, i as int) =~= doc.children@);
    text
}

} // verus!
