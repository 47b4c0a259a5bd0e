//! Copying on X11 and Wayland, where copied text lives in a process that
//! serves it: what is said when that process fails to take over.

use vstd::prelude::*;

use crate::history::opt_view;
use crate::text::{chars_of, string_of, trim_end_white, trimmed_end_len};

verus! {

/// Why the clipboard server did not take over: what it printed, without the
/// whitespace at its end; or where it printed nothing, why sending it the text
/// failed; or else that it exited.
pub open spec fn server_failure_text(printed: Seq<char>, send_error: Option<Seq<char>>) -> Seq<char> {
    let said = trim_end_white(printed);
    if said.len() > 0 {
        said
    } else {
        match send_error {
            Some(e) => "failed to start clipboard server: "@ + e,
            None => "clipboard server exited unexpectedly"@,
        }
    }
}

/// Why the clipboard server did not take over, given what it printed and,
/// if sending it the text failed, why.
pub fn server_failure(printed: &str, send_error: Option<String>) -> (r: String)
    ensures
        r@ == server_failure_text(printed@, opt_view(send_error)),
{
    let chars = chars_of(printed);
    let end = trimmed_end_len(chars.as_slice(), chars.len());
    assert(chars@.take(chars@.len() as int) =~= chars@);
    if end > 0 {
        return string_of(&chars.as_slice()[0..end]);
    }
    match send_error {
        Some(e) => {
            let mut message = "failed to start clipboard server: ".to_owned();
            message.append(e.as_str());
            message
        },
        None => "clipboard server exited unexpectedly".to_owned(),
    }
}

} // verus!
