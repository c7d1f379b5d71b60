//! Plain-text extraction from word-processor documents.
//!
//! The document tree is modelled by [`Document`]; the traversal that assembles
//! its text is verified against `document_text`. Decoding a container file
//! into that tree is left to the caller.

mod ansi;
mod chat;
mod document;
mod extract;
mod laws;
mod strings;

pub use ansi::{is_ascii_letter, sequence_tail_from, strip_ansi, strip_ansi_spec, visible_from, ESC};
pub use chat::{chat_reply, clean_chat_output, lossy_text};
pub use extract::{extract_decoded, ExtractError};
pub use document::{
    assemble_text, document_child_text, document_text, paragraph_child_text, paragraph_text,
    run_child_text, run_text, Document, DocumentChild, Paragraph, ParagraphChild, Run, RunChild,
};
pub use laws::{
    concat_all, document_skeleton, join_lines, lemma_document_text_concat, lemma_empty_paragraph_line,
    lemma_no_paragraphs_empty, lemma_paragraph_lines, lemma_paragraph_text_concat,
    lemma_paragraph_text_fragments, lemma_run_text_concat, lemma_skip_non_paragraph,
    lemma_skip_non_run, lemma_skip_non_text,
    lemma_text_ignores_other_nodes, line_free, lines, newline_count, no_newline,
    paragraph_count, paragraph_fragments, paragraph_lines, paragraph_skeleton, paragraph_skeleton_text,
    run_fragments, skeleton_text, split_lines_from,
};
