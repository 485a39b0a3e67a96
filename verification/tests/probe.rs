use cusk::probe::{
    announce_modeset, announce_scanout, check_colour, fill, interrogated, keeps_showing, report,
    report_keys, unreadable_card, watchdog_delay,
};
use cusk::tty::{Access, Card, Connector};

fn connector(name: &str, connected: bool, modes: Vec<(u16, u16, u32)>) -> Connector {
    Connector { name: name.to_string(), connected, modes }
}

#[test]
fn a_report_says_what_was_found_on_each_device() {
    let card = Card {
        path: "/dev/dri/card0".to_string(),
        connectors: vec![
            connector("eDP-1", true, vec![(1920, 1080, 60), (1280, 720, 60)]),
            connector("HDMI-A-1", false, vec![]),
        ],
        error: None,
    };
    assert_eq!(
        report(&Access::Session("seat0".to_string()), &[card]),
        vec![
            "",
            "  session acquired, seat: seat0",
            "",
            "  /dev/dri/card0",
            "      eDP-1        connected",
            "          preferred  1920x1080@60",
            "          2 modes total",
            "      HDMI-A-1     disconnected",
            "",
            "  A display is reachable and its modes are readable.",
            "",
        ]
    );
}

#[test]
fn a_report_without_a_session_says_how_to_get_one() {
    let card = unreadable_card("/dev/dri/card0".to_string(), "could not open: ", "denied");
    assert_eq!(card.error.as_deref(), Some("could not open: denied"));
    let lines = report(&Access::Direct("no seat".to_string()), &[card]);
    assert!(lines.contains(&"  no session (no seat)".to_string()));
    assert!(lines.contains(&"      could not open: denied".to_string()));
    assert!(lines.contains(&"  No connected display was readable — see the errors above.".to_string()));
    assert!(lines.contains(&"  (ctrl+alt+F3, log in, then run cusk --probe-drm).".to_string()));
}

#[test]
fn an_unreadable_connector_is_passed_over() {
    let found = vec![Some(connector("a", true, vec![])), None, Some(connector("b", false, vec![]))];
    let card = interrogated("/dev/dri/card0".to_string(), found);
    let names: Vec<&str> = card.connectors.iter().map(|c| c.name.as_str()).collect();
    assert_eq!(names, vec!["a", "b"]);
}

#[test]
fn a_filled_buffer_holds_the_colour_of_the_test() {
    let mut bytes = [0xffu8; 10];
    fill(&mut bytes);
    assert_eq!(bytes, [0x1a, 0x11, 0x08, 0, 0x1a, 0x11, 0x08, 0, 0xff, 0xff]);
}

#[test]
fn a_wrong_colour_is_told_apart_from_none() {
    assert_eq!(check_colour(&[0x11, 0x99, 0x33, 0xff]), Ok(()));
    assert_eq!(check_colour(&[]), Err("readback was empty".to_string()));
    assert_eq!(
        check_colour(&[0x33, 0x99, 0x0a, 0xff]),
        Err("rendered the wrong colour: expected [11, 99, 33], got [33, 99, 0A]".to_string())
    );
}

#[test]
fn a_picture_stays_up_for_its_time() {
    assert!(keeps_showing(4999, 5, false));
    assert!(!keeps_showing(5000, 5, false));
    assert!(!keeps_showing(0, 5, true));
    assert_eq!(watchdog_delay(5), 7);
}

#[test]
fn keys_are_reported_with_their_codes() {
    assert_eq!(
        report_keys(&[30, 31], true),
        vec!["  escape pressed — ended early", "  2 key press(es) seen, codes: [30, 31]"]
    );
    assert_eq!(report_keys(&[], false), vec!["  no key events arrived (was anything typed?)"]);
    assert!(announce_modeset("eDP-1", (800, 600, 75), 5).iter().any(|l| l.contains("800x600@75")));
    assert!(announce_scanout("eDP-1", (800, 600, 75), 5).iter().any(|l| l.contains("5s")));
}
