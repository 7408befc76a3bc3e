use wincrust::guard::{engaged, load_allowlist, refusal, EmergencyStop};

fn ticks(stop: &mut EmergencyStop, n: u32, cursor: Option<(i32, i32)>) {
    for _ in 0..n {
        stop.tick(cursor);
    }
}

#[test]
fn half_a_second_in_the_corner_engages_the_stop() {
    let mut stop = EmergencyStop::new();
    ticks(&mut stop, 4, Some((3, -10)));
    assert!(!engaged(&stop));
    ticks(&mut stop, 1, Some((3, -10)));
    assert!(engaged(&stop));
}

#[test]
fn a_break_starts_the_count_again() {
    let mut stop = EmergencyStop::new();
    ticks(&mut stop, 4, Some((0, 0)));
    ticks(&mut stop, 1, Some((11, 0)));
    ticks(&mut stop, 4, Some((0, 0)));
    assert!(!engaged(&stop));
}

#[test]
fn a_cursor_that_cannot_be_read_is_not_in_the_corner() {
    let mut stop = EmergencyStop::new();
    ticks(&mut stop, 100, None);
    assert!(!engaged(&stop));
}

#[test]
fn the_stop_is_latched_for_thirty_seconds() {
    let mut stop = EmergencyStop::new();
    ticks(&mut stop, 5, Some((0, 0)));
    ticks(&mut stop, 299, Some((500, 500)));
    assert!(engaged(&stop));
    ticks(&mut stop, 1, Some((500, 500)));
    assert!(!engaged(&stop));
}

#[test]
fn staying_in_the_corner_keeps_the_stop_engaged() {
    let mut stop = EmergencyStop::new();
    ticks(&mut stop, 1000, Some((-10, 10)));
    assert!(engaged(&stop));
    ticks(&mut stop, 299, Some((11, 11)));
    assert!(engaged(&stop));
}

#[test]
fn the_refusal_says_how_to_release_it() {
    assert_eq!(
        refusal(),
        "EMERGENCY STOP engaged: the mouse is parked in the top-left corner. \
         All input is refused. Move the cursor away and wait 30s to resume."
    );
}

#[test]
fn the_allowlist_is_one_name_a_line() {
    assert_eq!(
        load_allowlist("Notepad\r\n\n  # comment\n  C:\\Tools\\ÄPP.exe \n#x"),
        vec!["notepad".to_string(), "c:\\tools\\äpp.exe".to_string()]
    );
}

#[test]
fn an_empty_file_names_nothing() {
    assert!(load_allowlist("").is_empty());
    assert!(load_allowlist("\n# only a comment\n   \n").is_empty());
}
