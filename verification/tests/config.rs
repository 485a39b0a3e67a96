use cusk::config::{
    default_path, known_terminals, label_of, reload, restart_only_changes, schema, sections,
    set_in_document, settings_in, try_set_in_document, Apply, Complaint, Config, Kind, Problem,
    Reload, Stamp, Value, Watcher, INTERVAL,
};
use cusk::document::{Document, Leaf, Plain};
use cusk::number::{Decimal, Number};

fn decimal(written: &str) -> Decimal {
    let number: f64 = written.parse().unwrap();
    Decimal { number: Number { bits: number.to_bits() }, written: written.to_string() }
}

fn float(written: &str) -> Value {
    Value::Float(decimal(written))
}

fn ratio(config: &Config) -> f64 {
    f64::from_bits(config.master_ratio.number.bits)
}

// One file, as a watcher would find it.
struct Disk {
    contents: Option<String>,
    writes: i128,
    inode: u64,
}

impl Disk {
    fn holding(contents: &str) -> Disk {
        Disk { contents: Some(contents.to_string()), writes: 0, inode: 1 }
    }

    fn watcher(&self) -> Watcher {
        Watcher::new("cusk.toml".to_string(), self.stamp(), 0)
    }

    fn write(&mut self, contents: &str) {
        self.contents = Some(contents.to_string());
        self.writes += 1;
    }

    fn rename(&mut self, contents: &str) {
        self.write(contents);
        self.inode += 1;
    }

    fn remove(&mut self) {
        self.contents = None;
    }

    fn stamp(&self) -> Option<Stamp> {
        self.contents.as_ref().map(|contents| Stamp {
            modified: Some(self.writes),
            len: contents.len() as u64,
            inode: self.inode,
        })
    }

    fn check_now(&mut self, watcher: &mut Watcher) -> Reload {
        if watcher.check_now(self.stamp()) {
            match &self.contents {
                Some(contents) => reload(Ok(contents.clone())),
                None => reload(Err("no such file".to_string())),
            }
        } else {
            Reload::Unchanged
        }
    }
}

#[test]
fn every_default_satisfies_its_own_schema() {
    for setting in schema() {
        let default = setting.kind.default_value();
        assert!(
            setting.kind.check(&default).is_ok(),
            "{} default {default:?} violates its own constraint",
            setting.key
        );
    }
}

#[test]
fn the_terminal_list_comes_only_from_the_schema() {
    let names: Vec<&str> = known_terminals();
    assert!(!names.is_empty());
    assert!(!names.contains(&"auto"), "auto is a strategy, not a program");
    let mut config = Config::default();
    for name in names {
        assert!(
            config.set("commands.terminal", Value::Text(name.into())).is_ok(),
            "{name} is launchable but not configurable"
        );
    }
}

#[test]
fn keys_are_unique() {
    let mut seen = std::collections::HashSet::new();
    for setting in schema() {
        assert!(seen.insert(setting.key), "duplicate key {}", setting.key);
    }
}

#[test]
fn every_key_is_sectioned_and_lowercase() {
    for setting in schema() {
        assert!(setting.key.contains('.'), "{} has no section", setting.key);
        assert_eq!(
            setting.key,
            setting.key.to_lowercase(),
            "{} is not lowercase",
            setting.key
        );
        assert!(!setting.doc.is_empty(), "{} has no description", setting.key);
    }
}

#[test]
fn every_schema_entry_is_readable_and_writable() {
    let mut config = Config::default();
    for setting in schema() {
        let value = config.get(setting.key);
        assert_eq!(
            value.as_ref(),
            Some(&setting.kind.default_value()),
            "{} reads back wrong",
            setting.key
        );
        assert!(
            config.set(setting.key, setting.kind.default_value()).is_ok(),
            "{} rejects its own default",
            setting.key
        );
    }
}

#[test]
fn out_of_range_values_are_rejected_not_clamped() {
    let mut config = Config::default();
    assert!(matches!(
        config.set("layout.inner-gap", Value::Int(9999)),
        Err(Problem::OutOfRange { .. })
    ));
    assert_eq!(config.inner_gap, 8, "the old value must survive a rejection");
}

#[test]
fn a_typo_in_a_choice_is_rejected() {
    let mut config = Config::default();
    let err = config.set("layout.default", Value::Text("mastersstack".into()));
    assert!(matches!(err, Err(Problem::OutOfRange { .. })));
}

#[test]
fn wrong_types_are_rejected() {
    let mut config = Config::default();
    assert!(matches!(
        config.set("layout.inner-gap", Value::Bool(true)),
        Err(Problem::WrongType { .. })
    ));
}

#[test]
fn an_integer_is_accepted_for_a_number() {
    let kind = Kind::Float { default: decimal("1"), min: decimal("0"), max: decimal("10") };
    assert_eq!(kind.check(&Value::Int(3)), Ok(float("3")));
    assert!(
        matches!(kind.check(&Value::Int(11)), Err(Problem::OutOfRange { .. })),
        "widening must not skip the range check"
    );
}

#[test]
fn a_fraction_is_not_accepted_for_an_integer() {
    let mut config = Config::default();
    assert!(matches!(
        config.set("layout.inner-gap", float("4.5")),
        Err(Problem::WrongType { .. })
    ));
}

#[test]
fn unknown_keys_are_reported_rather_than_ignored() {
    let (_, complaints) =
        Config::from_str("[layout]\ninner-gpa = 4\n").unwrap();
    assert_eq!(
        complaints,
        vec![Complaint { key: "layout.inner-gpa".into(), problem: Problem::UnknownKey }]
    );
}

#[test]
fn a_bad_value_costs_only_its_own_setting() {
    let (config, complaints) = Config::from_str(
        "[layout]\ninner-gap = 20\nouter-gap = 100000\nmaster-ratio = 0.75\n",
    )
    .unwrap();
    assert_eq!(config.inner_gap, 20, "valid settings before it still apply");
    assert_eq!(ratio(&config), 0.75, "and after it");
    assert_eq!(config.outer_gap, 8, "the bad one falls back to its default");
    assert_eq!(complaints.len(), 1);
    assert_eq!(complaints[0].key, "layout.outer-gap");
}

#[test]
fn editing_a_value_preserves_comments_and_ordering() {
    let original = "\
# my cusk config
# hands off the ordering

[layout]
# I like a wide master
master-ratio = 0.7

inner-gap = 4   # tight

[input]
mod-key = \"alt\"
";
    let mut doc = Document::parse(original).unwrap();
    set_in_document(&mut doc, "layout.inner-gap", Value::Int(12)).unwrap();
    let written = doc.tree().to_string();

    assert!(written.contains("# my cusk config"));
    assert!(written.contains("# hands off the ordering"));
    assert!(written.contains("# I like a wide master"));
    assert!(written.contains("# tight"), "trailing comment survives");
    assert!(written.contains("inner-gap = 12"));
    assert!(
        written.find("master-ratio").unwrap() < written.find("inner-gap").unwrap(),
        "ordering must not be normalised"
    );
    let (config, complaints) = Config::from_str(&written).unwrap();
    assert!(complaints.is_empty());
    assert_eq!(config.inner_gap, 12);
    assert_eq!(ratio(&config), 0.7);
    assert_eq!(config.mod_key, "alt");
}

#[test]
fn writing_into_an_absent_section_creates_it() {
    let mut doc = Document::parse("").unwrap();
    set_in_document(&mut doc, "input.mod-key", Value::Text("ctrl".into())).unwrap();
    let written = doc.tree().to_string();
    assert!(written.contains("[input]"), "section header must be written: {written}");
    let (config, complaints) = Config::from_str(&written).unwrap();
    assert!(complaints.is_empty());
    assert_eq!(config.mod_key, "ctrl");
}

#[test]
fn the_document_writer_validates_too() {
    let mut doc = Document::parse("").unwrap();
    assert!(matches!(
        set_in_document(&mut doc, "layout.master-ratio", float("4")),
        Err(Problem::OutOfRange { .. })
    ));
    assert!(matches!(
        set_in_document(&mut doc, "layout.nonesuch", Value::Int(1)),
        Err(Problem::UnknownKey)
    ));
    assert_eq!(doc.tree().to_string(), "", "a rejected write leaves no trace");
}

#[test]
fn the_generated_default_file_round_trips() {
    let text = Config::default_file();
    let (config, complaints) = Config::from_str(&text).unwrap();
    assert!(complaints.is_empty(), "{complaints:?}");
    assert_eq!(config, Config::default(), "commented-out file must be all defaults");
    for setting in schema() {
        assert!(text.contains(setting.doc), "{} is undocumented", setting.key);
        let (_, leaf) = setting.path();
        assert!(text.contains(&leaf), "{} is missing", setting.key);
    }
}

#[test]
fn uncommenting_the_default_file_changes_nothing() {
    let rows = schema();
    let leaves: Vec<String> = rows.iter().map(|s| s.path().1).collect();
    let text: String = Config::default_file()
        .lines()
        .map(|line| match line.strip_prefix("# ") {
            // Only the setting lines, not the prose around them — the
            // header is a comment on purpose and is not valid TOML.
            Some(rest) if leaves.iter().any(|leaf| rest.starts_with(&format!("{leaf} ="))) => rest,
            _ => line,
        })
        .collect::<Vec<_>>()
        .join("\n");
    let (config, complaints) = Config::from_str(&text).unwrap();
    assert!(complaints.is_empty(), "{complaints:?}");
    assert_eq!(config, Config::default());
}

#[test]
fn an_unchanged_file_is_not_re_read() {
    let mut disk = Disk::holding("[layout]
inner-gap = 3
");
    let mut watcher = disk.watcher();
    assert!(matches!(disk.check_now(&mut watcher), Reload::Unchanged));
}

#[test]
fn an_edit_is_picked_up() {
    let mut disk = Disk::holding("[layout]
inner-gap = 3
");
    let mut watcher = disk.watcher();
    disk.write("[layout]
inner-gap = 30
");
    match disk.check_now(&mut watcher) {
        Reload::Applied { config, complaints } => {
            assert_eq!(config.inner_gap, 30);
            assert!(complaints.is_empty());
        }
        other => panic!("expected Applied, got {other:?}"),
    }
}

#[test]
fn a_rename_over_the_file_is_still_seen() {
    let mut disk = Disk::holding("[layout]
inner-gap = 3
");
    let mut watcher = disk.watcher();
    disk.rename("[layout]
inner-gap = 44
");
    match disk.check_now(&mut watcher) {
        Reload::Applied { config, .. } => assert_eq!(config.inner_gap, 44),
        other => panic!("expected Applied, got {other:?}"),
    }
}

#[test]
fn a_broken_file_leaves_the_running_config_alone() {
    let mut disk = Disk::holding("[layout]
inner-gap = 3
");
    let mut watcher = disk.watcher();
    disk.write("[layout]
inner-gap = ");
    match disk.check_now(&mut watcher) {
        Reload::Failed(message) => assert!(!message.is_empty()),
        other => panic!("a syntax error must not produce {other:?}"),
    }
}

#[test]
fn a_missing_file_changes_nothing() {
    let mut disk = Disk::holding("[layout]
inner-gap = 3
");
    let mut watcher = disk.watcher();
    disk.remove();
    assert!(matches!(disk.check_now(&mut watcher), Reload::Unchanged));
}

#[test]
fn resync_swallows_our_own_write() {
    let mut disk = Disk::holding("[layout]
inner-gap = 3
");
    let mut watcher = disk.watcher();
    disk.write("[layout]
inner-gap = 9
");
    watcher.resync(disk.stamp());
    assert!(
        matches!(disk.check_now(&mut watcher), Reload::Unchanged),
        "our own write must not come back as an external edit"
    );
}

#[test]
fn restart_only_settings_are_named_not_silently_skipped() {
    let old = Config::default();
    let mut new = Config::default();
    new.inner_gap = 40;
    assert!(restart_only_changes(&old, &new).is_empty(), "a live setting needs no restart");

    new.default_layout = "columns".into();
    new.tiling_on_start = true;
    let named = restart_only_changes(&old, &new);
    assert!(named.contains(&"layout.default"));
    assert!(named.contains(&"layout.tile-by-default"));
}

#[test]
fn the_generated_file_says_when_each_setting_applies() {
    let text = Config::default_file();
    for setting in schema().iter().filter(|s| s.apply == Apply::Restart) {
        assert!(
            text.contains("restart"),
            "{} applies only at restart and the file does not say so",
            setting.key
        );
    }
}

#[test]
fn sections_are_in_schema_order_and_unique() {
    let sections = sections();
    assert_eq!(sections, vec!["layout", "workspaces", "input", "appearance", "commands"]);
    let unique: std::collections::HashSet<_> = sections.iter().collect();
    assert_eq!(unique.len(), sections.len());
}

#[test]
fn every_setting_appears_in_exactly_one_section() {
    let mut seen = 0;
    for section in sections() {
        seen += settings_in(&section).len();
    }
    assert_eq!(seen, schema().len());
}

#[test]
fn labels_are_readable() {
    let setting = Config::setting("layout.master-ratio").unwrap();
    assert_eq!(label_of(&setting), "Master ratio");
}
#[test]
fn editing_the_generated_file_keeps_it_valid() {
    let mut doc = Document::parse(&Config::default_file()).unwrap();
    for (key, value) in [
        ("layout.inner-gap", Value::Int(35)),
        ("layout.master-ratio", float("0.42")),
        ("appearance.window-blur", Value::Bool(true)),
        ("appearance.window-opacity", float("0.85")),
        // Twice, because a GUI writes the same key on every drag.
        ("appearance.window-blur", Value::Bool(true)),
        ("commands.launcher", Value::Text("/somewhere/cusk-launcher".into())),
    ] {
        set_in_document(&mut doc, key, value).unwrap();
    }
    let written = doc.tree().to_string();
    let (config, complaints) = Config::from_str(&written)
        .unwrap_or_else(|e| panic!("the edited file no longer parses: {e}\n{written}"));
    assert!(complaints.is_empty(), "{complaints:?}");
    assert_eq!(config.inner_gap, 35);
    assert!(config.window_blur);

    // Real keys only — the generated file also has a *commented* copy of
    // every setting, and counting those would make this pass or fail for
    // the wrong reason.
    let real = |needle: &str| {
        written
            .lines()
            .filter(|line| !line.trim_start().starts_with('#') && line.trim_start().starts_with(needle))
            .count()
    };
    assert_eq!(real("window-blur"), 1, "duplicate key:\n{written}");
    assert_eq!(real("[commands]"), 1, "duplicate table:\n{written}");
}

#[test]
fn a_number_beyond_the_machine_is_rejected_not_wrapped() {
    let (config, complaints) =
        Config::from_str("[layout]\ninner-gap = 4294967299\n").unwrap();
    assert_eq!(config.inner_gap, 8);
    assert_eq!(complaints.len(), 1);
    assert_eq!(complaints[0].key, "layout.inner-gap");
    assert!(matches!(complaints[0].problem, Problem::OutOfRange { .. }));
}

#[test]
fn a_key_outside_any_table_sets_nothing() {
    let (config, complaints) = Config::from_str("inner-gap = 4\n").unwrap();
    assert_eq!(config, Config::default());
    assert!(complaints.is_empty());
}

#[test]
fn a_value_of_no_supported_type_is_reported() {
    let (config, complaints) = Config::from_str("[layout]\ninner-gap = [1, 2]\n").unwrap();
    assert_eq!(config, Config::default());
    assert_eq!(complaints.len(), 1);
    assert_eq!(
        complaints[0].problem,
        Problem::WrongType { expected: "integer", got: "an unsupported type" }
    );
}

#[test]
fn text_that_is_not_toml_is_an_error() {
    assert!(Config::from_str("[layout\n").is_err());
}

#[test]
fn a_written_setting_is_read_back() {
    let mut doc = Document::parse("[layout]\n").unwrap();
    set_in_document(&mut doc, "layout.master-ratio", float("0.42")).unwrap();
    let (config, complaints) = Config::from_document(&doc);
    assert!(complaints.is_empty());
    assert_eq!(ratio(&config), 0.42);
    assert_eq!(config.inner_gap, 8, "nothing else moved");
}

#[test]
fn a_setting_cannot_be_written_where_its_table_should_be() {
    let mut doc = Document::parse("layout = 3\n").unwrap();
    assert_eq!(
        set_in_document(&mut doc, "layout.inner-gap", Value::Int(4)),
        Err(Problem::UnknownKey)
    );
    assert_eq!(doc.tree().to_string(), "layout = 3\n");
}

#[test]
fn the_guarded_writer_agrees_with_the_plain_one() {
    let mut doc = Document::parse("").unwrap();
    assert_eq!(
        try_set_in_document(&mut doc, "layout.inner-gap", Value::Int(12)),
        Some(Ok(()))
    );
    assert_eq!(
        try_set_in_document(&mut doc, "layout.nonesuch", Value::Int(1)),
        Some(Err(Problem::UnknownKey))
    );
    let (config, _) = Config::from_document(&doc);
    assert_eq!(config.inner_gap, 12);
    // A value whose spelling is no number cannot be written at all.
    let spoilt = Value::Float(Decimal { number: Number { bits: 0.5f64.to_bits() }, written: "half".into() });
    assert_eq!(try_set_in_document(&mut doc, "layout.master-ratio", spoilt), None);
}

#[test]
fn what_is_put_is_read_back_and_keeps_its_place() {
    let mut doc = Document::parse("[a]\nx = 1 # one\ny = 2\n").unwrap();
    doc.put("a", "x", Plain::Integer(7));
    doc.put("a", "z", Plain::Text("new".to_string()));
    doc.add_table("b");
    doc.put("b", "on", Plain::Boolean(true));
    doc.put("b", "part", Plain::Number("0.5".to_string()));
    assert_eq!(
        doc.tree().to_string(),
        "[a]\nx = 7 # one\ny = 2\nz = \"new\"\n\n[b]\non = true\npart = 0.5\n"
    );
}

#[test]
fn a_value_says_itself_as_it_is_written() {
    assert_eq!(Value::Int(-4).to_text(), "-4");
    assert_eq!(float("0.6").to_text(), "0.6");
    assert_eq!(Value::Bool(true).to_text(), "true");
    assert_eq!(Value::Text("x".into()).to_text(), "x");
}

#[test]
fn a_problem_says_what_was_wrong() {
    let mut config = Config::default();
    let problem = config.set("layout.inner-gap", Value::Int(9999)).unwrap_err();
    let setting = Config::setting("layout.inner-gap").unwrap();
    let range = setting.kind.range().unwrap();
    assert_eq!(problem.to_text(), format!("allowed: {range}"));
    assert_eq!(Problem::UnknownKey.to_text(), "no such setting");
    assert_eq!(
        Problem::WrongType { expected: "integer", got: "boolean" }.to_text(),
        "expected integer, found boolean"
    );
    let complaint = Complaint { key: "a.b".into(), problem: Problem::UnknownKey };
    assert_eq!(complaint.to_text(), "a.b: no such setting");
}

#[test]
fn the_file_is_looked_for_where_the_environment_says() {
    assert_eq!(default_path(Some("/etc/xdg"), Some("/home/me")), "/etc/xdg/cusk/cusk.toml");
    assert_eq!(default_path(None, Some("/home/me")), "/home/me/.config/cusk/cusk.toml");
}

#[test]
fn a_watcher_looks_once_in_an_interval() {
    let disk = Disk::holding("");
    let mut watcher = disk.watcher();
    assert_eq!(watcher.path(), "cusk.toml");
    assert!(!watcher.poll(INTERVAL - 1));
    assert!(watcher.poll(INTERVAL));
    assert!(!watcher.poll(INTERVAL + 1));
    assert!(watcher.poll(2 * INTERVAL));
}

#[test]
fn what_is_not_a_number_is_out_of_range() {
    let kind = Kind::Float { default: decimal("0.6"), min: decimal("0.1"), max: decimal("0.9") };
    let nan = Value::Float(Decimal {
        number: Number { bits: f64::NAN.to_bits() },
        written: "NaN".to_string(),
    });
    assert_eq!(kind.check(&nan), Err(Problem::OutOfRange { allowed: "0.1 to 0.9".to_string() }));
    assert_eq!(kind.check(&float("0.1")), Ok(float("0.1")));
    assert_eq!(kind.check(&float("0.9")), Ok(float("0.9")));
    let (config, complaints) = Config::from_str("[layout]\nmaster-ratio = nan\n").unwrap();
    assert_eq!(ratio(&config), 0.6);
    assert_eq!(complaints.len(), 1);
}

#[test]
fn every_line_of_the_default_file_is_blank_a_comment_or_a_header() {
    let text = Config::default_file();
    let mut headers = Vec::new();
    for line in text.split('\n') {
        if line.starts_with('[') {
            assert!(line.ends_with(']'));
            headers.push(line[1..line.len() - 1].to_string());
        } else {
            assert!(line.is_empty() || line.starts_with('#'), "{line:?}");
        }
    }
    assert_eq!(headers, sections());
    let (read, complaints) = Config::from_str(&text).unwrap();
    assert_eq!(read, Config::default());
    assert!(complaints.is_empty());
}

#[test]
fn headers_without_values_are_the_defaults_and_a_second_one_is_an_error() {
    let (read, complaints) = Config::from_str("# é\t~\n\n[layout]\n[some_other-1]").unwrap();
    assert_eq!(read, Config::default());
    assert!(complaints.is_empty());
    assert!(Config::from_str("[layout]\n[layout]\n").is_err());
}

#[test]
fn comments_round_keys_and_headers_and_at_the_end_survive() {
    let before = "# top\n\n# above the header\n[layout] # beside it\n# above the key\n\
                  inner-gap = 4 # beside the value\n\n# at the end\n";
    let mut doc = Document::parse(before).unwrap();
    set_in_document(&mut doc, "layout.inner-gap", Value::Int(12)).unwrap();
    assert_eq!(doc.tree().to_string(), before.replace("= 4", "= 12"));
    set_in_document(&mut doc, "input.mod-key", Value::Text("alt".into())).unwrap();
    let written = doc.tree().to_string();
    for comment in
        ["# top", "# above the header", "# beside it", "# above the key", "# beside the value", "# at the end"]
    {
        assert!(written.contains(comment), "{comment} is gone from {written}");
    }
    let (config, complaints) = Config::from_document(&doc);
    assert!(complaints.is_empty());
    assert_eq!((config.inner_gap, config.outer_gap), (12, 8));
    assert_eq!(config.mod_key, "alt");
}

#[test]
fn a_plain_document_holds_what_its_lines_say() {
    let text = "# said first\n\n[a]\nwhole = 20\nzero = 0\nyes = true\nno = false\n[b-2]\n\
                nothing = \"\"\nwords = \"two words, # and = too\"\nhalf = 0.5\n1979 = 1979";
    let sections = Document::parse(text).unwrap().read();
    let names: Vec<&str> = sections.iter().map(|(name, _)| name.as_str()).collect();
    assert_eq!(names, ["a", "b-2"]);
    let entries = |i: usize| -> Vec<String> {
        let table = sections[i].1.as_ref().expect("a table");
        table.iter().map(|(name, leaf)| format!("{name} {leaf:?}")).collect()
    };
    assert_eq!(
        entries(0),
        ["whole Integer(20)", "zero Integer(0)", "yes Boolean(true)", "no Boolean(false)"]
    );
    assert_eq!(
        entries(1),
        [
            "nothing Text(\"\")".to_string(),
            "words Text(\"two words, # and = too\")".to_string(),
            format!("half Float({}, \"0.5\")", 0.5f64.to_bits()),
            "1979 Integer(1979)".to_string(),
        ]
    );
    let largest = Document::parse("[a]\nb = 9223372036854775807").unwrap().read();
    let entries = largest[0].1.as_ref().expect("a table");
    assert!(matches!(entries[0].1, Leaf::Integer(i64::MAX)));
}
