use cusk::identity::{kernel_release, unquote, Identity, HADALOS_ID, PATHS};

const HADALOS: &str = r#"
NAME="HadalOS"
ID=hadalos
# Everything underneath is still Gentoo.
ID_LIKE=gentoo
PRETTY_NAME="HadalOS"
VERSION="0.1 (foundation)"
VERSION_ID="0.1"
ANSI_COLOR="1;36"
HOME_URL="https://github.com/shmizzledizzle/HadalOS"
BUG_REPORT_URL="https://github.com/shmizzledizzle/HadalOS/issues"
"#;

const GENTOO: &str = r#"
NAME='Gentoo'
ID='gentoo'
PRETTY_NAME='Gentoo Linux'
VERSION='2.18'
ANSI_COLOR='1;32'
"#;

#[test]
fn hadalos_identifies_itself() {
    let id = Identity::parse(HADALOS).expect("parses");
    assert_eq!(id.pretty_name, "HadalOS");
    assert_eq!(id.id, "hadalos");
    assert_eq!(id.id_like.as_deref(), Some("gentoo"));
    assert_eq!(id.version.as_deref(), Some("0.1 (foundation)"));
    assert!(id.is_hadalos());
}

#[test]
fn the_reverted_machine_is_reported_as_what_it_is() {
    // The five-day state: baselayout's file, on a machine that still has
    // every HadalOS package installed. Nothing here may claim otherwise.
    let id = Identity::parse(GENTOO).expect("parses");
    assert_eq!(id.pretty_name, "Gentoo Linux");
    assert!(!id.is_hadalos(), "a Gentoo os-release must not read as HadalOS");
    assert_eq!(id.id_like, None, "Gentoo derives from nothing");
}

#[test]
fn single_and_double_quotes_are_both_stripped() {
    // Gentoo's file uses single quotes and HadalOS's uses double. A reader
    // that handled only one would show HadalOS correctly and Gentoo as
    // `'Gentoo Linux'`, which is the wrong way round for a mismatch warning.
    assert_eq!(unquote("\"HadalOS\""), "HadalOS");
    assert_eq!(unquote("'Gentoo Linux'"), "Gentoo Linux");
    assert_eq!(unquote("hadalos"), "hadalos");
    // Mismatched quotes are left alone rather than half-stripped.
    assert_eq!(unquote("\"unterminated"), "\"unterminated");
}

#[test]
fn comments_and_blank_lines_do_not_become_fields() {
    // HadalOS's own os-release carries a four-line comment explaining
    // ID_LIKE, so this is the file actually shipped, not a hypothetical.
    let id = Identity::parse("# a comment\n\nID=x\n# ID=wrong\n").expect("parses");
    assert_eq!(id.id, "x");
}

#[test]
fn a_file_without_an_id_is_not_an_identity() {
    assert!(Identity::parse("PRETTY_NAME=\"Something\"\n").is_none());
    assert!(Identity::parse("").is_none());
    // Present but empty is absent: an empty ID names nothing.
    assert!(Identity::parse("ID=\n").is_none());
}

#[test]
fn pretty_name_falls_back_rather_than_being_blank() {
    // os-release only guarantees NAME and ID.
    assert_eq!(Identity::parse("ID=x\nNAME=Ex\n").unwrap().pretty_name, "Ex");
    assert_eq!(Identity::parse("ID=x\n").unwrap().pretty_name, "x");
}

#[test]
fn version_falls_back_to_version_id() {
    let id = Identity::parse("ID=x\nVERSION_ID=\"9\"\n").unwrap();
    assert_eq!(id.version.as_deref(), Some("9"));
}

#[test]
fn the_real_system_parses_if_it_has_an_os_release() {
    for contents in [
        [Some(HADALOS), Some(GENTOO)],
        [Some("NAME=nothing
"), Some(GENTOO)],
        [None, Some(GENTOO)],
        [None, None],
    ] {
        if let Some(id) = Identity::load(contents) {
            assert!(!id.pretty_name.is_empty());
            assert!(!id.id.is_empty());
            assert!(PATHS.iter().any(|p| id.source == *p));
        }
    }
}

#[test]
fn the_first_file_that_names_a_system_is_the_source() {
    let first = Identity::load([Some(HADALOS), Some(GENTOO)]).expect("parses");
    assert_eq!(first.source, "/etc/os-release");
    assert_eq!(first.id, HADALOS_ID);
    let second = Identity::load([Some("NAME=nothing\n"), Some(GENTOO)]).expect("parses");
    assert_eq!(second.source, "/usr/lib/os-release");
    assert_eq!(second.id, "gentoo");
    assert!(Identity::load([None, None]).is_none());
}

#[test]
fn an_identity_keeps_its_addresses() {
    let id = Identity::parse(HADALOS).expect("parses");
    assert_eq!(id.home_url.as_deref(), Some("https://github.com/shmizzledizzle/HadalOS"));
    assert_eq!(id.bug_url.as_deref(), Some("https://github.com/shmizzledizzle/HadalOS/issues"));
}

#[test]
fn a_kernel_release_is_trimmed_and_never_blank() {
    assert_eq!(kernel_release(Some("6.12.1-gentoo\n")).as_deref(), Some("6.12.1-gentoo"));
    assert_eq!(kernel_release(Some(" \n")), None);
    assert_eq!(kernel_release(None), None);
}
