//! Platform identity and the pure parts of the desktop integration: the desktop and
//! storage identifiers, the Linux cursor-theme bridge decisions, and the contents of
//! the self-installed `.desktop` entry.

use vstd::prelude::*;

use crate::text::{
    ascii_lowercase, chars_eq, chars_of, push_char, push_str, slice_chars, split_chars, split_on, string_of, trim,
    trim_chars, to_ascii_lowercase,
};

verus! {

/// The reverse-DNS desktop identity: the window `app_id`, the basename of the
/// `.desktop` and icon files, the entry's `Icon=` and `StartupWMClass=` values.
pub const APP_ID: &'static str = "com.tjames.glyph80.FontSpace";

/// The on-disk storage namespace for user data, kept distinct from [`APP_ID`] so
/// changing the desktop identity never moves user data.
pub const STORAGE_NAMESPACE: &'static str = "fontspace";

// ---- cursor theme bridge ----

/// A desktop name that belongs to the GNOME family.
pub open spec fn gnome_part(part: Seq<char>) -> bool {
    ascii_lowercase(part) == "gnome"@ || ascii_lowercase(part) == "unity"@
}

/// Whether `XDG_CURRENT_DESKTOP` (a `:`-separated list) names a GNOME-family
/// desktop (GNOME, `ubuntu:GNOME`, `pop:GNOME`, Unity, in any case).
pub open spec fn gnome_family(desktop: Option<Seq<char>>) -> bool {
    match desktop {
        Some(d) => any_gnome_part(split_on(d, ':')),
        None => false,
    }
}

/// Some part names a GNOME-family desktop.
pub open spec fn any_gnome_part(parts: Seq<Seq<char>>) -> bool {
    exists|k: int| 0 <= k < parts.len() && gnome_part(#[trigger] parts[k])
}

/// Whether `XDG_CURRENT_DESKTOP` names a GNOME-family desktop.
pub fn is_gnome_family(xdg_current_desktop: Option<&str>) -> (r: bool)
    ensures
        r == gnome_family(
            match xdg_current_desktop {
                Some(d) => Some(d@),
                None => None,
            },
        ),
{
    match xdg_current_desktop {
        None => false,
        Some(desktop) => {
            let all = chars_of(desktop);
            let parts = split_chars(&all, ':');
            let ghost ps = split_on(desktop@, ':');
            let mut k: usize = 0;
            while k < parts.len()
                invariant
                    k <= parts@.len(),
                    all@ == desktop@,
                    xdg_current_desktop == Some(desktop),
                    ps == split_on(desktop@, ':'),
                    parts@.len() == ps.len(),
                    forall|j: int| 0 <= j < parts@.len() ==> #[trigger] parts@[j]@ == ps[j],
                    forall|j: int| 0 <= j < k ==> !gnome_part(#[trigger] ps[j]),
                decreases parts@.len() - k,
            {
                let lower = to_ascii_lowercase(&parts[k]);
                if chars_eq(&lower, "gnome") || chars_eq(&lower, "unity") {
                    assert(gnome_part(ps[k as int]));
                    assert(any_gnome_part(ps));
                    return true;
                }
                k = k + 1;
            }
            assert(!any_gnome_part(ps));
            false
        },
    }
}

/// A `gsettings get` value as a bare string: trimmed, one layer of surrounding
/// single quotes removed, and empty read as absent.
pub open spec fn gsettings_value(raw: Seq<char>) -> Option<Seq<char>> {
    let t = trim(raw);
    let unquoted = if t.len() >= 2 && t[0] == '\'' && t.last() == '\'' {
        t.subrange(1, t.len() - 1)
    } else {
        t
    };
    if unquoted.len() == 0 {
        None
    } else {
        Some(unquoted)
    }
}

/// Parses a `gsettings get` value into a bare string: trims, strips a single layer
/// of surrounding single quotes (`'Yaru'` becomes `Yaru`), and treats empty as
/// absent.
pub fn parse_gsettings_value(raw: &str) -> (r: Option<String>)
    ensures
        match gsettings_value(raw@) {
            Some(v) => r matches Some(s) && s@ == v,
            None => r is None,
        },
{
    let all = chars_of(raw);
    let t = trim_chars(&all);
    let unquoted = if t.len() >= 2 && t[0] == '\'' && t[t.len() - 1] == '\'' {
        slice_chars(&t, 1, t.len() - 1)
    } else {
        t
    };
    if unquoted.len() == 0 {
        None
    } else {
        Some(string_of(&unquoted))
    }
}

/// The `XCURSOR_*` variables to add: each that is unset in the environment and has
/// a non-empty probed value, size first.
pub open spec fn cursor_additions(
    current_size: Option<Seq<char>>,
    current_theme: Option<Seq<char>>,
    probed_size: Option<Seq<char>>,
    probed_theme: Option<Seq<char>>,
) -> Seq<(Seq<char>, Seq<char>)> {
    let size = match (current_size, probed_size) {
        (None, Some(v)) => if v.len() > 0 {
            seq![("XCURSOR_SIZE"@, v)]
        } else {
            Seq::empty()
        },
        _ => Seq::empty(),
    };
    let theme = match (current_theme, probed_theme) {
        (None, Some(v)) => if v.len() > 0 {
            seq![("XCURSOR_THEME"@, v)]
        } else {
            Seq::empty()
        },
        _ => Seq::empty(),
    };
    size + theme
}

/// An optional string by its characters.
pub open spec fn opt_chars(s: Option<&str>) -> Option<Seq<char>> {
    match s {
        Some(v) => Some(v@),
        None => None,
    }
}

/// The `XCURSOR_*` variables to add before re-exec, given the current environment
/// and the probed desktop values: only those currently unset and with a non-empty
/// probed value. Empty means there is nothing to do.
pub fn cursor_env_additions(
    current_size: Option<&str>,
    current_theme: Option<&str>,
    probed_size: Option<&str>,
    probed_theme: Option<&str>,
) -> (additions: Vec<(&'static str, String)>)
    ensures
        ({
            let want = cursor_additions(
                opt_chars(current_size),
                opt_chars(current_theme),
                opt_chars(probed_size),
                opt_chars(probed_theme),
            );
            &&& additions@.len() == want.len()
            &&& forall|k: int|
                0 <= k < want.len() ==> (#[trigger] additions@[k]).0@ == want[k].0 && additions@[k].1@ == want[k].1
        }),
{
    let mut additions: Vec<(&'static str, String)> = Vec::new();
    match (current_size, probed_size) {
        (None, Some(size)) => {
            if chars_of(size).len() > 0 {
                additions.push(("XCURSOR_SIZE", size.to_owned()));
            }
        },
        _ => {},
    }
    match (current_theme, probed_theme) {
        (None, Some(theme)) => {
            if chars_of(theme).len() > 0 {
                additions.push(("XCURSOR_THEME", theme.to_owned()));
            }
        },
        _ => {},
    }
    additions
}

// ---- desktop entry ----

/// One path character as it appears in an `Exec=` value: `%` doubled (so it is not
/// a field code), and `"`, `` ` ``, `$`, `\` escaped by a backslash.
pub open spec fn exec_char(c: char) -> Seq<char> {
    if c == '%' {
        seq!['%', '%']
    } else if c == '"' || c == '`' || c == '$' || c == '\\' {
        seq!['\\', c]
    } else {
        seq![c]
    }
}

/// The escaped characters of `s`, in order.
pub open spec fn exec_escaped(s: Seq<char>) -> Seq<char>
    decreases s.len(),
{
    if s.len() == 0 {
        Seq::empty()
    } else {
        exec_escaped(s.drop_last()) + exec_char(s.last())
    }
}

/// A path as a `.desktop` `Exec=` value: always double-quoted, with each character
/// escaped as [`exec_char`] says.
pub open spec fn exec_field(path: Seq<char>) -> Seq<char> {
    seq!['"'] + exec_escaped(path) + seq!['"']
}

/// Escapes a path for a `.desktop` `Exec=` value: the whole argument in double
/// quotes with `"`, `` ` ``, `$` and `\` backslash-escaped, and any literal `%`
/// doubled so it is not read as a field code.
pub fn desktop_exec_field(path: &str) -> (t: String)
    ensures
        t@ == exec_field(path@),
{
    let cs = chars_of(path);
    let mut t = String::new();
    push_char(&mut t, '"');
    let mut i: usize = 0;
    while i < cs.len()
        invariant
            i <= cs@.len(),
            cs@ == path@,
            t@ == seq!['"'] + exec_escaped(cs@.take(i as int)),
        decreases cs@.len() - i,
    {
        let c = cs[i];
        proof {
            assert(cs@.take(i + 1).drop_last() =~= cs@.take(i as int));
        }
        if c == '%' {
            push_char(&mut t, '%');
            push_char(&mut t, '%');
        } else if c == '"' || c == '`' || c == '$' || c == '\\' {
            push_char(&mut t, '\\');
            push_char(&mut t, c);
        } else {
            push_char(&mut t, c);
        }
        proof {
            assert(t@ =~= seq!['"'] + exec_escaped(cs@.take(i + 1)));
        }
        i = i + 1;
    }
    push_char(&mut t, '"');
    proof {
        assert(cs@.take(cs@.len() as int) =~= cs@);
        assert(t@ =~= exec_field(path@));
    }
    t
}

/// The `.desktop` entry for `exec_path`: a graphics application whose `Icon=` and
/// `StartupWMClass=` are the desktop identity, so the window maps to the entry.
pub open spec fn desktop_entry_text(exec_path: Seq<char>) -> Seq<char> {
    "[Desktop Entry]\nType=Application\nVersion=1.0\nName=FontSpace\nComment=Design and edit monospaced bitmap fonts\nExec="@
        + exec_field(exec_path) + "\nIcon="@ + APP_ID@
        + "\nTerminal=false\nCategories=Graphics;Development;\nStartupWMClass="@ + APP_ID@
        + "\nStartupNotify=true\n"@
}

/// The full `.desktop` entry contents for a resolved `exec_path`.
pub fn desktop_entry_contents(exec_path: &str) -> (t: String)
    ensures
        t@ == desktop_entry_text(exec_path@),
{
    let mut t = String::new();
    push_str(
        &mut t,
        "[Desktop Entry]\nType=Application\nVersion=1.0\nName=FontSpace\nComment=Design and edit monospaced bitmap fonts\nExec=",
    );
    let exec = desktop_exec_field(exec_path);
    push_str(&mut t, exec.as_str());
    push_str(&mut t, "\nIcon=");
    push_str(&mut t, APP_ID);
    push_str(&mut t, "\nTerminal=false\nCategories=Graphics;Development;\nStartupWMClass=");
    push_str(&mut t, APP_ID);
    push_str(&mut t, "\nStartupNotify=true\n");
    proof {
        assert(t@ =~= desktop_entry_text(exec_path@));
    }
    t
}

/// Whether path `path` lies under directory `base`, comparing whole path
/// components (`std::path::Path::starts_with`).
pub uninterp spec fn path_under(path: Seq<char>, base: Seq<char>) -> bool;

/// `Path::starts_with` on the two paths: whether `path` begins with the components
/// of `base`. The component rules are std's; this item only names the result.
#[verifier::external_body]
fn path_starts_with(path: &str, base: &str) -> (r: bool)
    ensures
        r == path_under(path@, base@),
{
    std::path::Path::new(path).starts_with(base)
}

/// The `Exec` path to record: `appimage` when both it and `appdir` are set and
/// non-empty and `current_exe` lies under `appdir` (genuinely inside that
/// AppImage), otherwise `current_exe`.
pub open spec fn exec_path_choice(
    appimage: Option<Seq<char>>,
    appdir: Option<Seq<char>>,
    current_exe: Seq<char>,
) -> Seq<char> {
    match (appimage, appdir) {
        (Some(image), Some(dir)) => if image.len() > 0 && dir.len() > 0 && path_under(current_exe, dir) {
            image
        } else {
            current_exe
        },
        _ => current_exe,
    }
}

/// Resolves the `Exec` path. Inside an AppImage the running executable is an
/// ephemeral mount path, so record the stable `$APPIMAGE` path instead, but only
/// when genuinely inside that AppImage (the executable lies under `$APPDIR`); any
/// mismatch falls back to the executable.
pub fn resolve_exec_path(appimage: Option<&str>, appdir: Option<&str>, current_exe: &str) -> (p: String)
    ensures
        p@ == exec_path_choice(opt_chars(appimage), opt_chars(appdir), current_exe@),
{
    match (appimage, appdir) {
        (Some(image), Some(dir)) => {
            if chars_of(image).len() > 0 && chars_of(dir).len() > 0 && path_starts_with(current_exe, dir) {
                return image.to_owned();
            }
        },
        _ => {},
    }
    current_exe.to_owned()
}

} // verus!
