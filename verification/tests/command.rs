use cusk::bindings::ModKey;
use cusk::command::{
    banner, choose_terminal, config_failure, parse, pick_terminal, resolve_launcher, tty_banner,
    Command,
};

fn args(list: &[&str]) -> Vec<String> {
    list.iter().map(|a| a.to_string()).collect()
}

#[test]
fn a_session_is_nested_unless_something_else_is_asked_for() {
    assert_eq!(parse(&args(&[])), Command::Nested { spawn: true, program: None });
    assert_eq!(
        parse(&args(&["--no-spawn", "foot"])),
        Command::Nested { spawn: false, program: Some("foot".to_string()) }
    );
    assert_eq!(parse(&args(&["--probe-drm", "--tty"])), Command::ProbeDrm);
    assert_eq!(parse(&args(&["--probe-render"])), Command::ProbeRender);
    assert_eq!(parse(&args(&["--probe-scanout"])), Command::ProbeScanout(5));
}

#[test]
fn seconds_are_read_where_they_are_a_number() {
    assert_eq!(parse(&args(&["--tty", "--seconds=90"])), Command::Tty(90));
    assert_eq!(parse(&args(&["--tty", "--seconds=+7"])), Command::Tty(7));
    assert_eq!(parse(&args(&["--tty", "--seconds=soon"])), Command::Tty(30));
    assert_eq!(parse(&args(&["--tty", "--seconds="])), Command::Tty(30));
    assert_eq!(
        parse(&args(&["--modeset-test", "--seconds=18446744073709551616"])),
        Command::ModesetTest(5)
    );
    assert_eq!(
        parse(&args(&["--modeset-test", "--seconds=18446744073709551615"])),
        Command::ModesetTest(u64::MAX)
    );
}

#[test]
fn the_banner_names_the_socket_and_the_modifier() {
    let lines = banner("wayland-3", ModKey::Alt);
    assert!(lines.contains(&"      WAYLAND_DISPLAY=wayland-3 alacritty".to_string()));
    assert!(lines.contains(&"      alt + m        maximise / restore".to_string()));
    assert!(lines[5].contains("CUSK_MOD=ctrl-alt"));
    assert!(banner("wayland-3", ModKey::Super)[5].contains("CUSK_MOD=alt"));
    assert!(tty_banner("seat0", (1920, 1080), "wayland-1", 30)[1].contains("seat0, 1920x1080"));
    assert!(config_failure("/a.toml", "broken").iter().any(|line| line.contains("/a.toml")));
}

#[test]
fn a_terminal_is_chosen_in_order() {
    assert_eq!(pick_terminal(&[false, true, true]), Some(1));
    assert_eq!(pick_terminal(&[false]), None);
    assert_eq!(choose_terminal(Some("xterm"), "foot", Some("kitty")).as_deref(), Some("xterm"));
    assert_eq!(choose_terminal(None, "foot", Some("kitty")).as_deref(), Some("foot"));
    assert_eq!(choose_terminal(None, "auto", Some("kitty")).as_deref(), Some("kitty"));
    assert_eq!(choose_terminal(None, "auto", None), None);
}

#[test]
fn a_launcher_beside_the_program_is_preferred() {
    assert_eq!(resolve_launcher("cusk-launcher", Some("/opt/cusk-launcher")), "/opt/cusk-launcher");
    assert_eq!(resolve_launcher("cusk-launcher", None), "cusk-launcher");
    assert_eq!(resolve_launcher("/usr/bin/wofi", Some("/opt/wofi")), "/usr/bin/wofi");
}
