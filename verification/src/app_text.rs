//! The document label shown in the window and its title bar.

use vstd::prelude::*;

use crate::text::push_str;

verus! {

/// The in-window document label: the name, with a leading `* ` when there are
/// unsaved changes.
pub open spec fn title_label_text(name: Seq<char>, dirty: bool) -> Seq<char> {
    if dirty {
        "* "@ + name
    } else {
        name
    }
}

/// The in-window document label: the file name (or "Untitled") with a leading `*`
/// when there are unsaved changes.
pub fn title_label(name: &str, dirty: bool) -> (t: String)
    ensures
        t@ == title_label_text(name@, dirty),
{
    let mut t = String::new();
    if dirty {
        push_str(&mut t, "* ");
    }
    push_str(&mut t, name);
    t
}

/// The OS window title: the document label followed by the app name.
pub fn window_title(name: &str, dirty: bool) -> (t: String)
    ensures
        t@ == title_label_text(name@, dirty) + " - FontSpace"@,
{
    let mut t = title_label(name, dirty);
    push_str(&mut t, " - FontSpace");
    t
}

} // verus!
