use vstd::prelude::*;

use crate::document::{assemble_text, document_text, Document};

verus! {

/// Why text could not be extracted.
#[derive(Debug, Clone, Copy, PartialEq, Eq, Structural)]
pub enum ExtractError {
    /// The byte source could not be read.
    IoError,
    /// The bytes are not a valid document container.
    ParseError,
}

/// The text of a decoded document: the text of each paragraph in order, each
/// followed by one newline. Where decoding failed (`None`) the extraction
/// fails with `ParseError`, and no text.
pub fn extract_decoded(decoded: Option<Document>) -> (r: Result<String, ExtractError>)
    ensures
        decoded matches Some(d) ==> (r matches Ok(s) && s@ == document_text(d.children@)),
        decoded is None ==> r == Err::<String, ExtractError>(ExtractError::ParseError),
{
    match decoded {
        Some(doc) => Ok(assemble_text(&doc)),
        None => Err(ExtractError::ParseError),
    }
}

} // verus!
