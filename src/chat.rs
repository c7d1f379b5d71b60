use vstd::prelude::*;

use crate::ansi::{strip_ansi, strip_ansi_spec};

verus! {

/// The text that a byte buffer reads as, invalid UTF-8 sequences being
/// replaced by U+FFFD.
pub uninterp spec fn lossy_text(bytes: Seq<u8>) -> Seq<char>;

/// Relies on `String::from_utf8_lossy`: the result depends on the bytes alone,
/// and no bytes give no text.
#[verifier::external_body]
fn decode_lossy(bytes: &[u8]) -> (r: String)
    ensures
        r@ == lossy_text(bytes@),
        bytes@.len() == 0 ==> r@.len() == 0,
{
    String::from_utf8_lossy(bytes).into_owned()
}

/// The reply of a chat tool as shown to a user: its output read as text, with
/// terminal escape sequences removed.
pub fn clean_chat_output(stdout: &[u8]) -> (r: String)
    ensures
        r@ == strip_ansi_spec(lossy_text(stdout@)),
{
    let text = decode_lossy(stdout);
    strip_ansi(text.as_str())
}

/// The reply of a chat tool run: its cleaned output where the run succeeded,
/// `None` where it failed.
pub fn chat_reply(succeeded: bool, stdout: &[u8]) -> (r: Option<String>)
    ensures
        succeeded ==> (r matches Some(t) && t@ == strip_ansi_spec(lossy_text(stdout@))),
        !succeeded ==> r is None,
{
    if succeeded {
        Some(clean_chat_output(stdout))
    } else {
        None
    }
}

} // verus!
