use cusk::entry::{
    find_icon, icon_candidates, is_desktop_file, load_all, parse, rank, resolve_pinned, score,
    search_dirs, section, sections, split_list, strip_field_codes, Entry, Section,
};

fn entry(name: &str, exec: &str) -> Entry {
    Entry {
        id: format!("{name}.desktop"),
        name: name.into(),
        comment: None,
        command: strip_field_codes(exec),
        terminal: false,
        icon: None,
        categories: Vec::new(),
    }
}

fn categorised(name: &str, categories: &[&str]) -> Entry {
    Entry {
        categories: categories.iter().map(|c| c.to_string()).collect(),
        ..entry(name, name)
    }
}

const FIREFOX: &str = "\
[Desktop Entry]
Version=1.0
Type=Application
Name=Firefox
Comment=Browse the web
Exec=firefox %u
Terminal=false
Categories=Network;WebBrowser;
";

#[test]
fn a_normal_entry_parses() {
    let e = parse(FIREFOX, "firefox.desktop").unwrap();
    assert_eq!(e.name, "Firefox");
    assert_eq!(e.command, vec!["firefox"]);
    assert_eq!(e.comment.as_deref(), Some("Browse the web"));
    assert!(!e.terminal);
}

#[test]
fn field_codes_are_removed() {
    assert_eq!(strip_field_codes("firefox %u"), vec!["firefox"]);
    assert_eq!(strip_field_codes("gimp-2.10 %U"), vec!["gimp-2.10"]);
    assert_eq!(
        strip_field_codes("env FOO=1 thing --flag %F --after"),
        vec!["env", "FOO=1", "thing", "--flag", "--after"]
    );
    assert_eq!(strip_field_codes("app %i %c %k %f"), vec!["app"]);
}

#[test]
fn an_escaped_percent_survives() {
    assert_eq!(strip_field_codes("printf 100%%"), vec!["printf", "100%"]);
}

#[test]
fn quoted_arguments_stay_together() {
    assert_eq!(
        strip_field_codes(r#"sh -c "echo hello world""#),
        vec!["sh", "-c", "echo hello world"]
    );
}

#[test]
fn hidden_and_nodisplay_entries_are_skipped() {
    let hidden = FIREFOX.replace("Terminal=false", "NoDisplay=true");
    assert!(parse(&hidden, "x.desktop").is_none());
    let hidden = FIREFOX.replace("Terminal=false", "Hidden=true");
    assert!(parse(&hidden, "x.desktop").is_none());
}

#[test]
fn non_applications_are_skipped() {
    let link = FIREFOX.replace("Type=Application", "Type=Link");
    assert!(parse(&link, "x.desktop").is_none());
}

#[test]
fn an_entry_without_exec_is_skipped() {
    let broken = FIREFOX.replace("Exec=firefox %u", "");
    assert!(parse(&broken, "x.desktop").is_none());
}

#[test]
fn action_groups_do_not_leak_into_the_main_entry() {
    let with_action = format!(
        "{FIREFOX}
[Desktop Action new-private-window]
Name=New Private Window
Exec=firefox --private-window
"
    );
    let e = parse(&with_action, "firefox.desktop").unwrap();
    assert_eq!(e.name, "Firefox");
    assert_eq!(e.command, vec!["firefox"], "the action's Exec must not win");
}

#[test]
fn localised_keys_do_not_override_the_plain_one() {
    let localised = FIREFOX.replace("Name=Firefox", "Name=Firefox\nName[de]=Feuerfuchs");
    let e = parse(&localised, "x.desktop").unwrap();
    assert_eq!(e.name, "Firefox");
}

#[test]
fn terminal_entries_are_marked() {
    let term = FIREFOX.replace("Terminal=false", "Terminal=true");
    assert!(parse(&term, "x.desktop").unwrap().terminal);
}

#[test]
fn comments_and_blank_lines_are_ignored() {
    let messy = format!("# a comment\n\n{FIREFOX}\n\n# trailing\n");
    assert!(parse(&messy, "x.desktop").is_some());
}

#[test]
fn a_trailing_semicolon_does_not_become_an_empty_category() {
    let e = parse(FIREFOX, "firefox.desktop").unwrap();
    assert_eq!(e.categories, vec!["Network", "WebBrowser"]);
}

#[test]
fn an_entry_with_no_categories_line_parses_with_none() {
    let bare = FIREFOX.replace("Categories=Network;WebBrowser;\n", "");
    assert!(parse(&bare, "x.desktop").unwrap().categories.is_empty());
}

#[test]
fn spec_categories_map_onto_menu_sections() {
    assert_eq!(section(&categorised("Firefox", &["Network"])), Section::Internet);
    assert_eq!(section(&categorised("Kate", &["Development"])), Section::Development);
    assert_eq!(section(&categorised("Files", &["Utility"])), Section::Utilities);
    assert_eq!(section(&categorised("VLC", &["AudioVideo"])), Section::Multimedia);
}

#[test]
fn unrecognised_and_absent_categories_both_land_in_other() {
    assert_eq!(section(&categorised("Odd", &["ConferenceCall"])), Section::Other);
    assert_eq!(section(&categorised("Bare", &[])), Section::Other);
}

#[test]
fn the_table_breaks_ties_not_the_files_ordering() {
    let one = categorised("Panel", &["Settings", "System"]);
    let other = categorised("Panel", &["System", "Settings"]);
    assert_eq!(section(&one), Section::Settings);
    assert_eq!(section(&other), Section::Settings, "file order must not decide");

    // An IDE declaring Development;Utility; is not a utility.
    assert_eq!(
        section(&categorised("IDE", &["Utility", "Development"])),
        Section::Development
    );
}

#[test]
fn grouping_drops_empty_sections_and_keeps_sidebar_order() {
    let entries = vec![
        categorised("Kate", &["Development"]),
        categorised("Firefox", &["Network"]),
    ];
    let grouped = sections(&entries);
    assert_eq!(
        grouped.iter().map(|(s, _)| *s).collect::<Vec<_>>(),
        vec![Section::Development, Section::Internet]
    );
    assert!(grouped.iter().all(|(_, found)| !found.is_empty()));
}

#[test]
fn entries_within_a_section_are_sorted_by_name() {
    let entries = vec![
        categorised("zathura", &["Office"]),
        categorised("Abiword", &["Office"]),
        categorised("libreoffice", &["Office"]),
    ];
    let (_, found) = sections(&entries).into_iter().next().unwrap();
    assert_eq!(
        found.iter().map(|e| e.name.as_str()).collect::<Vec<_>>(),
        vec!["Abiword", "libreoffice", "zathura"],
        "case must not split the alphabet into two runs"
    );
}

#[test]
fn grouping_partitions_the_catalogue() {
    let entries = vec![
        categorised("Kate", &["Development"]),
        categorised("Firefox", &["Network"]),
        categorised("Odd", &["ConferenceCall"]),
        categorised("Bare", &[]),
        categorised("VLC", &["AudioVideo"]),
    ];
    let grouped = sections(&entries);
    let total: usize = grouped.iter().map(|(_, found)| found.len()).sum();
    assert_eq!(total, entries.len());
}

#[test]
fn an_empty_query_matches_everything() {
    let entries = vec![entry("Firefox", "firefox"), entry("Files", "nautilus")];
    assert_eq!(rank(&entries, "").len(), 2);
}

#[test]
fn prefix_matches_outrank_substring_matches() {
    let entries = vec![
        entry("LibreOffice Writer", "lowriter"),
        entry("Writer's Helper", "wh"),
    ];
    let ranked = rank(&entries, "writer");
    assert_eq!(ranked[0].name, "Writer's Helper", "starts-with beats contains");
}

fn fake(id: &str, name: &str, exec: &str) -> Entry {
    Entry {
        id: id.into(),
        name: name.into(),
        comment: None,
        command: vec![exec.into()],
        terminal: false,
        icon: Some(id.into()),
        categories: Vec::new(),
    }
}

fn catalogue() -> Vec<Entry> {
    vec![
        fake("org.mozilla.firefox", "Firefox", "/usr/bin/firefox"),
        fake("Alacritty", "Alacritty", "/usr/bin/alacritty"),
        fake("org.kde.dolphin", "Dolphin", "/usr/bin/dolphin"),
    ]
}

#[test]
fn pins_keep_the_order_they_were_written_in() {
    let pinned = resolve_pinned("org.kde.dolphin, Alacritty, org.mozilla.firefox", &catalogue());
    let names: Vec<&str> = pinned.iter().map(|e| e.name.as_str()).collect();
    assert_eq!(names, ["Dolphin", "Alacritty", "Firefox"]);
}

#[test]
fn a_pin_may_name_the_binary_or_the_visible_name() {
    assert_eq!(resolve_pinned("firefox", &catalogue()).len(), 1, "by binary");
    assert_eq!(resolve_pinned("Dolphin", &catalogue()).len(), 1, "by name");
    assert_eq!(resolve_pinned("ALACRITTY", &catalogue()).len(), 1, "case-insensitively");
}

#[test]
fn a_pin_for_something_not_installed_is_dropped() {
    let pinned = resolve_pinned("firefox, nothing-here, dolphin", &catalogue());
    assert_eq!(pinned.len(), 2);
}

#[test]
fn ids_keep_the_desktop_extension_and_app_ids_do_not() {
    let installed = vec![fake("org.kde.konsole.desktop", "Konsole", "konsole")];

    assert!(
        resolve_pinned("org.kde.konsole", &installed).is_empty(),
        "a bare app id must not match an id that carries the extension"
    );
    assert_eq!(
        resolve_pinned("org.kde.konsole.desktop", &installed).len(),
        1,
        "appending .desktop is what makes the id match"
    );
    // And the reason the omission stayed hidden this long.
    assert_eq!(
        resolve_pinned("konsole", &installed).len(),
        1,
        "the binary-name fallback masks it for applications named after \
         their binary"
    );
}

#[test]
fn an_empty_pin_list_pins_nothing() {
    assert!(resolve_pinned("", &catalogue()).is_empty());
    assert!(resolve_pinned("  ,  , ", &catalogue()).is_empty());
}

#[test]
fn an_exact_name_wins_outright() {
    let entries = vec![entry("File Manager", "fm"), entry("Files", "nautilus")];
    let ranked = rank(&entries, "files");
    assert_eq!(ranked[0].name, "Files");
}

#[test]
fn a_word_inside_the_name_matches() {
    let entries = vec![entry("GNOME Terminal", "gnome-terminal")];
    assert_eq!(rank(&entries, "term").len(), 1);
}

#[test]
fn the_command_matches_when_the_name_does_not() {
    let entries = vec![entry("Files", "nautilus")];
    assert_eq!(rank(&entries, "nautilus").len(), 1);
    assert!(rank(&entries, "zzzz").is_empty());
}

#[test]
fn shorter_names_come_first_among_equals() {
    let entries = vec![entry("Files Preferences", "a"), entry("Files", "b")];
    let ranked = rank(&entries, "fil");
    assert_eq!(ranked[0].name, "Files");
}

#[test]
fn equal_scores_are_ordered_stably_by_name() {
    let entries = vec![entry("Bravo", "x"), entry("Alpha", "y"), entry("Charlie", "z")];
    let names: Vec<&str> = rank(&entries, "").iter().map(|e| e.name.as_str()).collect();
    assert_eq!(names, vec!["Alpha", "Bravo", "Charlie"]);
}

fn file(id: &str, name: &str, icon: &str, categories: &str) -> (String, String) {
    (
        id.to_string(),
        format!(
            "[Desktop Entry]\nType=Application\nName={name}\nExec={name}\nIcon={icon}\nCategories={categories}\n"
        ),
    )
}

fn installed() -> Vec<(String, String)> {
    vec![
        file("org.kde.konsole.desktop", "Konsole", "org.kde.konsole", "Qt;KDE;System;"),
        file("firefox.desktop", "Firefox", "firefox", "Network;WebBrowser;"),
        file("gimp.desktop", "GIMP", "gimp", "Graphics;2DGraphics;"),
        file("odd.desktop", "Odd", "odd", "ConferenceCall;"),
    ]
}

#[test]
fn most_installed_applications_resolve_an_icon() {
    let all = load_all(&installed());
    let dirs = ["/usr/share/icons/breeze".to_string(), "/usr/share/icons/hicolor".to_string()];
    let files = [
        "/usr/share/icons/breeze/apps/48/org.kde.konsole.svg".to_string(),
        "/usr/share/icons/hicolor/64x64/apps/firefox.png".to_string(),
        "/usr/share/pixmaps/gimp.png".to_string(),
    ];
    let with_icon: Vec<_> = all.iter().filter(|e| e.icon.is_some()).collect();
    let resolved = with_icon
        .iter()
        .filter(|e| find_icon(e.icon.as_deref().unwrap(), &dirs, &files).is_some())
        .count();
    assert!(
        resolved * 2 > with_icon.len(),
        "only {resolved} of {} icons resolved — the directory layouts are probably wrong",
        with_icon.len()
    );
}

#[test]
fn most_installed_applications_land_somewhere_better_than_other() {
    let all = load_all(&installed());
    let grouped = sections(&all);

    let total: usize = grouped.iter().map(|(_, found)| found.len()).sum();
    assert_eq!(total, all.len(), "every installed entry must appear exactly once");

    let other = grouped
        .iter()
        .find(|(section, _)| *section == Section::Other)
        .map_or(0, |(_, found)| found.len());
    assert!(
        other * 2 < all.len(),
        "{other} of {} entries fell through to Other — the category table is \
         probably missing something common",
        all.len()
    );
}

#[test]
fn an_absolute_icon_path_is_used_as_given() {
    assert_eq!(find_icon("/definitely/not/here.png", &[], &[]), None);
}

#[test]
fn search_dirs_put_the_users_own_first() {
    let dirs = search_dirs(None, Some("/home/me"), None);
    assert!(!dirs.is_empty());
    assert!(
        dirs.iter().all(|d| d.ends_with("/applications")),
        "every directory must be an applications dir"
    );
}

#[test]
fn icons_are_looked_for_theme_by_theme() {
    let dirs = ["/usr/share/icons/hicolor".to_string()];
    let files = [
        "/usr/share/icons/hicolor/scalable/apps/a.svg".to_string(),
        "/usr/share/icons/hicolor/48x48/apps/a.png".to_string(),
        "/usr/share/pixmaps/a.png".to_string(),
    ];
    assert_eq!(
        find_icon("a", &dirs, &files).as_deref(),
        Some("/usr/share/icons/hicolor/48x48/apps/a.png")
    );
    assert_eq!(find_icon("a", &[], &files).as_deref(), Some("/usr/share/pixmaps/a.png"));
    assert_eq!(find_icon("/usr/share/pixmaps/a.png", &[], &files).as_deref(), Some("/usr/share/pixmaps/a.png"));
    let first = &icon_candidates("a")[0];
    assert_eq!(first.theme.as_deref(), Some("/usr/share/icons/breeze"));
    assert_eq!(first.path, "/usr/share/icons/breeze/apps/256/a.svg");
}

#[test]
fn the_users_own_directory_comes_first() {
    assert_eq!(
        search_dirs(Some("/data"), Some("/home/me"), Some("/a:/b/:")),
        vec!["/data/applications", "/a/applications", "/b/applications"]
    );
    assert_eq!(
        search_dirs(Some(""), Some("/home/me"), None),
        vec![
            "/home/me/.local/share/applications",
            "/usr/local/share/applications",
            "/usr/share/applications",
        ]
    );
}

#[test]
fn the_first_file_with_an_id_wins() {
    let files = [
        file("b.desktop", "beta", "b", ""),
        file("a.desktop", "Alpha", "a", ""),
        file("b.desktop", "Other", "o", ""),
    ];
    let names: Vec<String> = load_all(&files).into_iter().map(|e| e.name).collect();
    assert_eq!(names, vec!["Alpha", "beta"]);
}

#[test]
fn only_names_with_the_extension_are_desktop_files() {
    assert!(is_desktop_file("firefox.desktop"));
    assert!(!is_desktop_file("firefox.desktop.bak"));
    assert!(!is_desktop_file(".desktop"));
}

#[test]
fn letters_match_in_any_case_and_beyond_the_alphabet() {
    let entries = vec![entry("ÉTUDE", "etude"), entry("Other", "other")];
    let ranked = rank(&entries, "étude");
    assert_eq!(ranked.len(), 1);
    assert_eq!(ranked[0].name, "ÉTUDE");
    assert!(score(&entries[0], "étude") > score(&entries[0], "étu"));
}

#[test]
fn an_open_quote_runs_to_the_end() {
    assert_eq!(strip_field_codes("a \"b c"), vec!["a", "b c"]);
    assert_eq!(strip_field_codes(""), Vec::<String>::new());
    assert_eq!(strip_field_codes("a %"), vec!["a"]);
    assert_eq!(split_list("a; b ;;c"), vec!["a", "b", "c"]);
}

#[test]
fn a_first_file_that_offers_nothing_hides_the_others() {
    let files = [
        file("a.desktop", "Hidden", "a", "Game;\nNoDisplay=true"),
        file("b.desktop", "Beta", "b", ""),
        file("a.desktop", "Alpha", "a", ""),
    ];
    let names: Vec<String> = load_all(&files).into_iter().map(|e| e.name).collect();
    assert_eq!(names, vec!["Beta"]);
}

#[test]
fn lines_that_say_nothing_can_stand_anywhere() {
    let bare = "[Desktop Entry]\nType=Application\nName=One\nExec=one %f\n";
    let expected = parse(bare, "one.desktop");
    assert!(expected.is_some());
    for line in ["", "   ", "# note", "Name[de]=Eins", "Name [de] = Eins", "no value"] {
        for at in 0..=4 {
            let mut lines: Vec<&str> = bare.lines().collect();
            lines.insert(at, line);
            assert_eq!(parse(&lines.join("\n"), "one.desktop"), expected, "{line:?} at {at}");
        }
    }
    let longer = format!("{bare}[Desktop Action new]\nName=Two\nExec=two\nNoDisplay=true\n");
    assert_eq!(parse(&longer, "one.desktop"), expected);
}

#[test]
fn field_codes_and_quotes_stand_for_nothing() {
    assert_eq!(strip_field_codes("run %f --to \"a b\" %U"), strip_field_codes("run  --to \"a b\" "));
    assert_eq!(strip_field_codes("run %f --to \"a b\" %U"), vec!["run", "--to", "a b"]);
    assert_eq!(strip_field_codes("say 100%% %i"), vec!["say", "100%"]);
    let plain = "  one\ttwo   three ";
    assert_eq!(strip_field_codes(plain), plain.split_whitespace().collect::<Vec<_>>());
}
