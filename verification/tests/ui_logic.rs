use fontspace::{
    codes_between, cursor_env_additions, describe_code, desktop_entry_contents, desktop_exec_field, glyph_tooltip,
    humanized_size, is_gnome_family, overview_entries, parse_gsettings_value, preview_codes, resolve_exec_path,
    scan_label, title_label, window_title, Bitmap, CharacterEntry, CharacterSet, CodeDisplay, Glyph, GlyphPage,
    GlyphSize, OverviewEntry, Pane, ScanDirection, SequentialIdGen, APP_ID, STORAGE_NAMESPACE,
};

fn charset(codes: &[u32]) -> CharacterSet {
    let mut ids = SequentialIdGen::new();
    let mut cs = CharacterSet::new(&mut ids, "cs", "");
    cs.entries = codes.iter().map(|&code| CharacterEntry { code, label: String::new() }).collect();
    cs
}

fn page_with_glyphs(codes: &[u32]) -> GlyphPage {
    let mut ids = SequentialIdGen::new();
    let mut page = GlyphPage::new(&mut ids, "p", "");
    for &code in codes {
        page.glyphs.push(Glyph { code, bitmap: Bitmap::new_blank(GlyphSize::new(8, 8)) });
    }
    page
}

#[test]
fn printable_codes_show_a_glyph_no_notation() {
    let a = describe_code(0x41);
    assert_eq!(a.glyph, Some('A'));
    assert_eq!(a.notation, None);
    assert_eq!(describe_code(0x20).glyph, Some(' '));
}

#[test]
fn glyph_tooltip_combines_hex_character_and_label() {
    let mut ids = SequentialIdGen::new();
    let mut cs = CharacterSet::new(&mut ids, "cs", "");
    cs.entries = vec![CharacterEntry { code: 0x41, label: "Latin A".to_string() }];
    assert_eq!(glyph_tooltip(0x41, Some(&cs)), "0x0041  A\nLatin A");
    assert_eq!(glyph_tooltip(0x00, Some(&cs)), "0x0000  NUL");
    assert_eq!(glyph_tooltip(0x42, None), "0x0042  B");
}

#[test]
fn control_codes_show_notation_no_glyph() {
    assert_eq!(describe_code(0x00), CodeDisplay { glyph: None, notation: Some("NUL") });
    assert_eq!(describe_code(0x1B).notation, Some("ESC"));
    assert_eq!(describe_code(0x0A).notation, Some("LF"));
    assert_eq!(describe_code(0x7F).notation, Some("DEL"));
    assert!(describe_code(0x1B).glyph.is_none());
}

#[test]
fn non_control_high_codes_have_a_glyph_and_no_notation() {
    assert_eq!(describe_code(0xE9).glyph, Some('é'));
    assert_eq!(describe_code(0xE9).notation, None);
}

#[test]
fn surrogates_and_out_of_range_codes_have_no_glyph() {
    assert_eq!(describe_code(0xD800), CodeDisplay { glyph: None, notation: None });
    assert_eq!(describe_code(0x11_0000), CodeDisplay { glyph: None, notation: None });
    assert_eq!(describe_code(0x10_FFFF).glyph, char::from_u32(0x10_FFFF));
    assert_eq!(describe_code(0x85), CodeDisplay { glyph: None, notation: None });
    assert_eq!(glyph_tooltip(0xE9, None), "0x00E9  é");
}

#[test]
fn entries_follow_charset_order_and_flag_missing_glyphs() {
    let cs = charset(&[0x41, 0x42, 0x43]);
    let page = page_with_glyphs(&[0x42]);
    let entries = overview_entries(Some(&cs), &page);
    assert_eq!(entries.len(), 3);
    assert_eq!(entries[0], OverviewEntry { code: 0x41, in_character_set: true, has_glyph: false });
    assert_eq!(entries[1], OverviewEntry { code: 0x42, in_character_set: true, has_glyph: true });
    assert!(!entries[2].has_glyph);
}

#[test]
fn dangling_glyphs_are_appended_and_flagged() {
    let cs = charset(&[0x41]);
    let page = page_with_glyphs(&[0x41, 0x99, 0x80]);
    let entries = overview_entries(Some(&cs), &page);
    assert_eq!(entries[0].code, 0x41);
    assert_eq!(entries[1], OverviewEntry { code: 0x80, in_character_set: false, has_glyph: true });
    assert_eq!(entries[2], OverviewEntry { code: 0x99, in_character_set: false, has_glyph: true });
}

#[test]
fn no_character_set_shows_only_dangling_glyphs() {
    let page = page_with_glyphs(&[0x41]);
    let entries = overview_entries(None, &page);
    assert_eq!(entries.len(), 1);
    assert!(!entries[0].in_character_set);
}

#[test]
fn codes_between_spans_the_inclusive_run_in_display_order() {
    let ordered = [0x41, 0x42, 0x43, 0x44, 0x45];
    assert_eq!(codes_between(&ordered, 0x42, 0x44), vec![0x42, 0x43, 0x44]);
}

#[test]
fn codes_between_is_order_independent() {
    let ordered = [0x41, 0x42, 0x43, 0x44];
    assert_eq!(codes_between(&ordered, 0x44, 0x42), codes_between(&ordered, 0x42, 0x44));
}

#[test]
fn codes_between_single_endpoint_is_one_code() {
    let ordered = [0x41, 0x42, 0x43];
    assert_eq!(codes_between(&ordered, 0x42, 0x42), vec![0x42]);
}

#[test]
fn codes_between_absent_endpoint_is_empty() {
    let ordered = [0x41, 0x42, 0x43];
    assert!(codes_between(&ordered, 0x99, 0x42).is_empty());
}

#[test]
fn preview_codes_map_chars_keep_repeats_and_drop_unknown() {
    let cs = charset(&[0x41, 0x42]);
    assert_eq!(preview_codes("AxAB", Some(&cs)), vec![0x41, 0x41, 0x42]);
}

#[test]
fn preview_codes_empty_without_character_set() {
    assert_eq!(preview_codes("AB", None), Vec::<u32>::new());
}

#[test]
fn humanized_size_picks_whole_binary_units() {
    assert_eq!(humanized_size(0), "1 B");
    assert_eq!(humanized_size(9), "512 B");
    assert_eq!(humanized_size(10), "1 KiB");
    assert_eq!(humanized_size(16), "64 KiB");
    assert_eq!(humanized_size(20), "1 MiB");
    assert_eq!(humanized_size(30), "1 GiB");
}

#[test]
fn humanized_size_large_exponents_stay_in_gib() {
    assert_eq!(humanized_size(32), "4 GiB");
    assert_eq!(humanized_size(93), "9223372036854775808 GiB");
}

#[test]
fn scan_labels_name_the_data_axis() {
    assert_eq!(scan_label(ScanDirection::Row), "Row (columns on data bits)");
    assert_eq!(scan_label(ScanDirection::Column), "Column (rows on data bits)");
}

#[test]
fn every_pane_has_a_nonempty_title() {
    for pane in Pane::all() {
        assert!(!pane.title().is_empty(), "{pane:?} needs a title");
    }
}

#[test]
fn the_pane_set_lists_each_pane_once() {
    let panes = Pane::all();
    for (i, a) in panes.iter().enumerate() {
        for b in &panes[i + 1..] {
            assert_ne!(a, b);
        }
    }
    assert_eq!(Pane::GlyphEditor.title(), "Glyph Editor");
    assert_eq!(Pane::DocumentBrowser.title(), "Documents");
}

#[test]
fn title_label_and_window_title_mark_unsaved_edits() {
    assert_eq!(title_label("Untitled", false), "Untitled");
    assert_eq!(title_label("Untitled", true), "* Untitled");
    assert_eq!(title_label("demo.fontspace.json", true), "* demo.fontspace.json");
    assert_eq!(window_title("demo.fontspace.json", false), "demo.fontspace.json - FontSpace");
    assert_eq!(window_title("Untitled", true), "* Untitled - FontSpace");
}

#[test]
fn app_id_matches_packaged_identifier() {
    assert_eq!(APP_ID, "com.tjames.glyph80.FontSpace");
    assert!(APP_ID.split('.').filter(|part| !part.is_empty()).count() >= 3, "APP_ID must be reverse-DNS (a.b.c)");
    assert!(!APP_ID.contains(char::is_whitespace));
}

#[test]
fn storage_namespace_is_distinct_from_app_id() {
    assert_ne!(STORAGE_NAMESPACE, APP_ID);
    assert_eq!(STORAGE_NAMESPACE, "fontspace");
}

#[test]
fn gnome_family_detection() {
    assert!(is_gnome_family(Some("GNOME")));
    assert!(is_gnome_family(Some("ubuntu:GNOME")));
    assert!(is_gnome_family(Some("pop:GNOME")));
    assert!(is_gnome_family(Some("Unity")));
    assert!(!is_gnome_family(Some("KDE")));
    assert!(!is_gnome_family(Some("sway")));
    assert!(!is_gnome_family(None));
}

#[test]
fn gsettings_value_parsing() {
    assert_eq!(parse_gsettings_value("'Yaru'"), Some("Yaru".to_string()));
    assert_eq!(parse_gsettings_value("  24\n"), Some("24".to_string()));
    assert_eq!(parse_gsettings_value("''"), None);
    assert_eq!(parse_gsettings_value("   "), None);
}

#[test]
fn gsettings_strips_only_one_layer_of_quotes() {
    assert_eq!(parse_gsettings_value("''x''"), Some("'x'".to_string()));
    assert_eq!(parse_gsettings_value("'"), Some("'".to_string()));
}

#[test]
fn additions_only_for_unset_vars_with_probed_values() {
    assert!(cursor_env_additions(Some("32"), Some("Yaru"), Some("24"), Some("Adwaita")).is_empty());
    assert_eq!(
        cursor_env_additions(None, Some("Yaru"), Some("24"), Some("Adwaita")),
        vec![("XCURSOR_SIZE", "24".to_string())]
    );
    assert_eq!(
        cursor_env_additions(None, None, Some("24"), Some("Adwaita")),
        vec![("XCURSOR_SIZE", "24".to_string()), ("XCURSOR_THEME", "Adwaita".to_string())]
    );
    assert!(cursor_env_additions(None, None, None, Some("")).is_empty());
}

#[test]
fn exec_field_quotes_and_escapes() {
    assert_eq!(desktop_exec_field("/usr/bin/fontspace-gui"), "\"/usr/bin/fontspace-gui\"");
    assert_eq!(desktop_exec_field("/opt/a%b/x"), "\"/opt/a%%b/x\"");
    assert_eq!(desktop_exec_field(r#"/x/$y"#), "\"/x/\\$y\"");
    assert_eq!(desktop_exec_field(r#"/a"b"#), "\"/a\\\"b\"");
    assert_eq!(desktop_exec_field(r"/a\b"), "\"/a\\\\b\"");
}

#[test]
fn entry_contents_bind_icon_and_wmclass_to_app_id() {
    let entry = desktop_entry_contents("/usr/bin/fontspace-gui");
    assert!(entry.starts_with("[Desktop Entry]\n"));
    assert!(entry.contains("Type=Application\n"));
    assert!(entry.contains(&format!("Icon={APP_ID}\n")));
    assert!(entry.contains(&format!("StartupWMClass={APP_ID}\n")));
    assert!(entry.contains("Categories=Graphics;Development;\n"));
    assert!(entry.contains("Exec=\"/usr/bin/fontspace-gui\"\n"));
}

#[test]
fn resolve_exec_prefers_appimage_only_when_genuinely_inside_it() {
    let exe = "/tmp/.mount_abc/usr/bin/fontspace-gui";
    assert_eq!(
        resolve_exec_path(Some("/home/u/FontSpace.AppImage"), Some("/tmp/.mount_abc"), exe),
        "/home/u/FontSpace.AppImage"
    );
    assert_eq!(resolve_exec_path(Some("/home/u/Other.AppImage"), Some("/somewhere/else"), exe), exe);
    assert_eq!(resolve_exec_path(None, None, exe), exe);
    assert_eq!(resolve_exec_path(Some(""), Some(""), exe), exe);
}

#[test]
fn appdir_must_match_whole_path_components() {
    let exe = "/tmp/.mount_abcdef/usr/bin/fontspace-gui";
    assert_eq!(resolve_exec_path(Some("/home/u/FontSpace.AppImage"), Some("/tmp/.mount_abc"), exe), exe);
}
