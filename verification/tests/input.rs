use wincrust::input::{
    check_clicked, check_typed, click_at, send_keys, to_normalized, Desktop, InputError, KeyEvent,
    MouseEvent, MouseKind,
};
use wincrust::keys::{parse, Chord, KeyError};


#[test]
fn maps_the_span_to_the_full_range() {
    assert_eq!(to_normalized(0, 0, 1920), 0);
    assert_eq!(to_normalized(1919, 0, 1920), 65535);
}

/// The case no display here can produce: a monitor left of the primary puts
/// the virtual-screen origin at a negative x, and a point on it is negative
/// too. Both must still land inside 0..65535.
#[test]
fn handles_a_negative_virtual_origin() {
    // Two 1920-wide monitors, secondary on the left: origin -1920, span 3840.
    assert_eq!(to_normalized(-1920, -1920, 3840), 0);
    assert_eq!(to_normalized(1919, -1920, 3840), 65535);
    // The primary's left edge sits halfway across the virtual desktop.
    let mid = to_normalized(0, -1920, 3840);
    assert!((32750..=32790).contains(&mid), "midpoint was {mid}");
}

#[test]
fn handles_a_negative_origin_on_the_y_axis() {
    // A monitor above the primary.
    assert_eq!(to_normalized(-1080, -1080, 2160), 0);
    assert_eq!(to_normalized(1079, -1080, 2160), 65535);
}

/// A degenerate span must not divide by zero.
#[test]
fn survives_a_one_pixel_span() {
    assert_eq!(to_normalized(0, 0, 1), 0);
    assert_eq!(to_normalized(0, 0, 0), 0);
}

#[test]
fn is_monotonic_across_the_span() {
    let mut last = i32::MIN;
    for x in (-1920..1920).step_by(97) {
        let n = to_normalized(x, -1920, 3840);
        assert!(n > last, "not monotonic at {x}");
        last = n;
    }
}


#[test]
fn no_two_pixels_land_on_one_spot() {
    for x in -40..65495 {
        assert!(to_normalized(x, -40, 65536) < to_normalized(x + 1, -40, 65536));
    }
    assert_eq!(to_normalized(1, 0, 65536), 1);
    assert_eq!(to_normalized(1, 0, 200_000), to_normalized(0, 0, 200_000));
}

// --- clicks ---

fn desktop() -> Desktop {
    Desktop { x: -1920, y: 0, w: 3840, h: 1080 }
}

#[test]
fn a_click_is_move_press_release_at_one_point() {
    let events = click_at(-1920, 1079, desktop()).unwrap();
    let at = |kind| MouseEvent { kind, dx: 0, dy: 65535 };
    assert_eq!(
        events,
        vec![at(MouseKind::Move), at(MouseKind::LeftDown), at(MouseKind::LeftUp)]
    );
}

#[test]
fn a_point_between_two_steps_is_rounded_to_the_nearest() {
    // 1 * 65535 / 1919 is 34.15..., and 959 * 65535 / 1919 is 32750.4...
    assert_eq!(to_normalized(1, 0, 1920), 34);
    assert_eq!(to_normalized(959, 0, 1920), 32750);
    // 1 * 65535 / 2 is 32767.5, which goes away from zero.
    assert_eq!(to_normalized(1, 0, 3), 32768);
    assert_eq!(to_normalized(-1, 0, 3), -32768);
}

#[test]
fn a_coordinate_far_outside_saturates() {
    assert_eq!(to_normalized(i32::MAX, 0, 2), i32::MAX);
    assert_eq!(to_normalized(i32::MIN, 0, 2), i32::MIN);
}

#[test]
fn a_desktop_without_area_is_refused() {
    let screen = Desktop { x: 0, y: 0, w: 0, h: 1080 };
    let err = click_at(0, 0, screen).unwrap_err();
    assert_eq!(err, InputError::NoDesktop { screen });
    assert_eq!(
        err.message(),
        "virtual screen is 0x1080 - no desktop to click on (session 0?)"
    );
}

#[test]
fn a_point_off_the_desktop_is_refused() {
    for (x, y) in [(1920, 0), (-1921, 0), (0, -1), (0, 1080)] {
        assert!(matches!(click_at(x, y, desktop()), Err(InputError::Outside { .. })));
    }
    assert_eq!(
        click_at(1920, 5, desktop()).unwrap_err().message(),
        "(1920,5) is outside the virtual desktop (-1920,0 3840x1080)"
    );
}

#[test]
fn a_blocked_batch_is_reported() {
    assert_eq!(check_clicked(3, 3), Ok(()));
    assert_eq!(
        check_clicked(0, 3).unwrap_err().message(),
        "SendInput accepted 0 of 3 events - blocked by UIPI?"
    );
    assert_eq!(check_typed(4, 4), Ok(()));
    assert_eq!(
        check_typed(2, 6).unwrap_err().message(),
        "SendInput accepted 2 of 6 keyboard events"
    );
}

// --- keys ---

fn plain(key: u16) -> Chord {
    Chord { ctrl: false, shift: false, alt: false, win: false, key }
}

#[test]
fn a_plain_key_is_recognised() {
    assert_eq!(parse("Enter").unwrap(), vec![plain(0x0d)]);
    assert_eq!(parse("ESCAPE").unwrap(), vec![plain(0x1b)]);
    assert_eq!(parse("F5").unwrap(), vec![plain(0x74)]);
    assert_eq!(parse("f24").unwrap(), vec![plain(0x87)]);
    assert_eq!(parse("7").unwrap(), vec![plain(0x37)]);
    assert_eq!(parse("f").unwrap(), vec![plain(0x46)]);
}

#[test]
fn chords_are_separated_by_white_space() {
    assert_eq!(
        parse("  Home Shift+End\tCtrl+C ").unwrap(),
        vec![
            plain(0x24),
            Chord { shift: true, ..plain(0x23) },
            Chord { ctrl: true, ..plain(0x43) },
        ]
    );
    assert_eq!(
        parse("ctrl+Shift+P").unwrap(),
        vec![Chord { ctrl: true, shift: true, ..plain(0x50) }]
    );
    assert_eq!(
        parse("Win+Alt+Up").unwrap(),
        vec![Chord { win: true, alt: true, ..plain(0x26) }]
    );
}

#[test]
fn an_unknown_key_is_refused_rather_than_guessed() {
    for bad in ["Banana", "Ctrl+", "+", "Ctrl++", "Hyper+A", "F25", "F0", "Ctrl"] {
        assert!(
            matches!(parse(bad), Err(KeyError::Unknown { .. })),
            "accepted {bad:?}"
        );
    }
    assert_eq!(
        parse("Enter Banana Apple").unwrap_err().message(),
        "unrecognised key 'Banana'"
    );
}

#[test]
fn an_empty_key_specification_is_refused() {
    assert_eq!(parse(" \t ").unwrap_err(), KeyError::Empty);
    assert_eq!(KeyError::Empty.message(), "no keys to send");
}

#[test]
fn a_run_of_keys_is_capped() {
    assert_eq!(parse(&"a ".repeat(32)).unwrap().len(), 32);
    let err = parse(&"a ".repeat(33)).unwrap_err();
    assert_eq!(err, KeyError::TooMany { chords: 33 });
    assert_eq!(
        err.message(),
        "a run is capped at 32 keystrokes, and this one has 33"
    );
}

#[test]
fn modifiers_are_released_in_reverse_order() {
    let chords = parse("Ctrl+Shift+P").unwrap();
    let event = |vk, up| KeyEvent { vk, up };
    assert_eq!(
        send_keys(&chords),
        vec![
            event(0x11, false),
            event(0x10, false),
            event(0x50, false),
            event(0x50, true),
            event(0x10, true),
            event(0x11, true),
        ]
    );
}

#[test]
fn no_key_is_left_held() {
    let events = send_keys(&parse("Win+R Alt+F4 Enter").unwrap());
    for vk in [0x5b, 0x52, 0x12, 0x73, 0x0d] {
        let downs = events.iter().filter(|e| e.vk == vk && !e.up).count();
        let ups = events.iter().filter(|e| e.vk == vk && e.up).count();
        assert_eq!((downs, ups), (1, 1));
    }
}
