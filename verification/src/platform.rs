//! Clipboard questions that some platforms can't answer: how many times the
//! clipboard has changed, and whether a copy was marked as not to be
//! recorded. Where a platform has no way to ask, these are the answers; and
//! where it has, these are the marks that keep a copy out of history.

use vstd::prelude::*;

use crate::text::same_text;

verus! {

/// X11, Wayland and the platforms without a clipboard change counter have
/// none to read; they announce changes instead, or not at all.
pub fn change_count() -> (r: Option<u64>)
    ensures
        r is None,
{
    None
}

/// Where copies can't be marked as secret, none is taken to be.
pub fn is_concealed() -> (r: bool)
    ensures
        !r,
{
    false
}

/// The type that keeps a copy out of history on X11 and Wayland: introduced
/// by KDE's clipboard manager, and set by password managers like KeePassXC.
pub const PASSWORD_MANAGER_HINT: &'static str = "x-kde-passwordManagerHint";

/// Whether a list of offered types holds `marker`.
pub open spec fn offers(types: Seq<String>, marker: Seq<char>) -> bool {
    exists|i: int| 0 <= i < types.len() && (#[trigger] types[i])@ == marker
}

/// Whether the clipboard, offering `types` on X11 or Wayland, holds a copy
/// that a password manager marked as secret.
pub fn offers_hint(types: &Vec<String>) -> (r: bool)
    ensures
        r == offers(types@, PASSWORD_MANAGER_HINT@),
{
    let mut i: usize = 0;
    while i < types.len()
        invariant
            i <= types@.len(),
            forall|k: int| 0 <= k < i ==> (#[trigger] types@[k])@ != PASSWORD_MANAGER_HINT@,
        decreases types@.len() - i,
    {
        if same_text(types[i].as_str(), PASSWORD_MANAGER_HINT) {
            return true;
        }
        i = i + 1;
    }
    false
}

/// The pasteboard types that keep a copy out of history on macOS: those of
/// nspasteboard.org, and the marker 1Password has long used.
pub open spec fn is_pasteboard_marker(name: Seq<char>) -> bool {
    ||| name == "org.nspasteboard.ConcealedType"@
    ||| name == "org.nspasteboard.TransientType"@
    ||| name == "org.nspasteboard.AutoGeneratedType"@
    ||| name == "com.agilebits.onepassword"@
}

/// Whether `name` is one of the pasteboard types that keep a copy out of
/// history.
fn names_pasteboard_marker(name: &str) -> (r: bool)
    ensures
        r == is_pasteboard_marker(name@),
{
    same_text(name, "org.nspasteboard.ConcealedType") || same_text(
        name,
        "org.nspasteboard.TransientType",
    ) || same_text(name, "org.nspasteboard.AutoGeneratedType") || same_text(
        name,
        "com.agilebits.onepassword",
    )
}

/// Whether the pasteboard, offering `types` on macOS, holds a copy marked as
/// not to be recorded.
pub fn offers_pasteboard_marker(types: &Vec<String>) -> (r: bool)
    ensures
        r == exists|i: int| 0 <= i < types@.len() && is_pasteboard_marker((#[trigger] types@[i])@),
{
    let mut i: usize = 0;
    while i < types.len()
        invariant
            i <= types@.len(),
            forall|k: int| 0 <= k < i ==> !is_pasteboard_marker((#[trigger] types@[k])@),
        decreases types@.len() - i,
    {
        if names_pasteboard_marker(types[i].as_str()) {
            return true;
        }
        i = i + 1;
    }
    false
}

/// The clipboard formats that keep a copy out of history on Windows.
/// Password managers add them; apps set `CanIncludeInClipboardHistory` to 0
/// to opt out, and hardly ever set it at all otherwise, so its presence is
/// enough.
pub open spec fn is_format_marker(name: Seq<char>) -> bool {
    ||| name == "ExcludeClipboardContentFromMonitorProcessing"@
    ||| name == "CanIncludeInClipboardHistory"@
    ||| name == "Clipboard Viewer Ignore"@
}

/// The names of the clipboard formats that keep a copy out of history on
/// Windows, each once.
pub fn format_markers() -> (r: Vec<&'static str>)
    ensures
        forall|name: Seq<char>| is_format_marker(name) <==> exists|i: int| 0 <= i < r@.len() && (#[trigger] r@[i])@ == name,
        forall|i: int, j: int| 0 <= i < j < r@.len() ==> r@[i]@ != r@[j]@,
{
    let r = vec![
        "ExcludeClipboardContentFromMonitorProcessing",
        "CanIncludeInClipboardHistory",
        "Clipboard Viewer Ignore",
    ];
    proof {
        reveal_strlit("ExcludeClipboardContentFromMonitorProcessing");
        reveal_strlit("CanIncludeInClipboardHistory");
        reveal_strlit("Clipboard Viewer Ignore");
        assert(r@[0]@ == "ExcludeClipboardContentFromMonitorProcessing"@);
        assert(r@[1]@ == "CanIncludeInClipboardHistory"@);
        assert(r@[2]@ == "Clipboard Viewer Ignore"@);
        assert(r@[0]@.len() != r@[1]@.len() && r@[0]@.len() != r@[2]@.len() && r@[1]@.len() != r@[2]@.len());
    }
    r
}

} // verus!
