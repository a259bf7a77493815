use vidimg::clock::{bar_line, bar_text, bar_text_from, format_time, time_field, volume_label, PlayerStatus};
use vidimg::keys::KeyCodes;
use vidimg::player::{PlayerAction, Playback};

#[test]
fn short_times_show_minutes_and_seconds() {
    assert_eq!(format_time(0), "00:00");
    assert_eq!(format_time(7), "00:07");
    assert_eq!(format_time(59), "00:59");
    assert_eq!(format_time(61), "01:01");
    assert_eq!(format_time(3599), "59:59");
}

#[test]
fn long_times_show_hours() {
    assert_eq!(format_time(3600), "1:00:00");
    assert_eq!(format_time(3725), "1:02:05");
    assert_eq!(format_time(86399), "23:59:59");
    assert_eq!(format_time(360000), "100:00:00");
    assert_eq!(format_time(16777215), "4660:20:15");
}

fn status(playing: bool, width: u32, position: u32, length: u32) -> PlayerStatus {
    PlayerStatus { playing, width, height: 30, length, position, volume: 100 }
}

#[test]
fn bar_text_reserves_room_for_icon_time_and_brackets() {
    let t = bar_text(&status(true, 40, 61, 3725));
    assert_eq!(t.icon, "|> ");
    assert_eq!(t.time, " 01:01/1:02:05 ");
    assert_eq!(t.capacity, 20);
    let t = bar_text(&status(false, 10, 0, 0));
    assert_eq!(t.icon, "|| ");
    assert_eq!(t.time, " 00:00/00:00 ");
    assert_eq!(t.capacity, 0);
}

#[test]
fn bar_line_fills_its_room() {
    let t = bar_text(&status(true, 40, 61, 3725));
    assert_eq!(bar_line(&t, 5), "|>  01:01/1:02:05 [#####...............]");
    assert_eq!(bar_line(&t, 0), "|>  01:01/1:02:05 [....................]");
    assert_eq!(bar_line(&t, 20), "|>  01:01/1:02:05 [####################]");
    assert_eq!(bar_line(&t, 22), "|>  01:01/1:02:05 [######################]");
}

#[test]
fn volume_line() {
    assert_eq!(volume_label(100), "Vol: 100%");
    assert_eq!(volume_label(55), "Vol: 55%");
    assert_eq!(volume_label(0), "Vol: 0%");
}

fn keys() -> KeyCodes {
    KeyCodes { up: 259, down: 258, left: 260, right: 261, enter: 343, backspace: 263 }
}

#[test]
fn a_video_starts_at_full_volume() {
    assert_eq!(Playback::new(), Playback { frame: 0, volume: 100, paused: false });
}

#[test]
fn space_pauses_and_resumes() {
    let k = keys();
    let mut p = Playback { frame: 10, volume: 50, paused: false };
    assert_eq!(p.on_key(32, &k, 150), PlayerAction::Pause);
    assert_eq!(p, Playback { frame: 10, volume: 50, paused: true });
    assert_eq!(p.on_key(261, &k, 150), PlayerAction::StillPaused);
    assert_eq!(p.on_key(-1, &k, 150), PlayerAction::StillPaused);
    assert_eq!(p, Playback { frame: 10, volume: 50, paused: true });
    assert_eq!(p.on_key(32, &k, 150), PlayerAction::Resume);
    assert_eq!(p, Playback { frame: 11, volume: 50, paused: false });
}

#[test]
fn arrows_seek_by_the_step() {
    let k = keys();
    let mut p = Playback { frame: 1, volume: 100, paused: false };
    assert_eq!(p.on_key(261, &k, 150), PlayerAction::Seek(151));
    assert_eq!(p.frame, 152);
    assert_eq!(p.on_key(260, &k, 150), PlayerAction::Seek(2));
    assert_eq!(p.frame, 3);
    assert_eq!(p.on_key(260, &k, 150), PlayerAction::Seek(0));
    assert_eq!(p.frame, 1);
}

#[test]
fn volume_moves_by_five_within_bounds() {
    let k = keys();
    let mut p = Playback { frame: 0, volume: 100, paused: false };
    assert_eq!(p.on_key(259, &k, 5), PlayerAction::Next);
    assert_eq!(p, Playback { frame: 1, volume: 100, paused: false });
    assert_eq!(p.on_key(258, &k, 5), PlayerAction::VolumeDown);
    assert_eq!(p.volume, 95);
    assert_eq!(p.on_key(259, &k, 5), PlayerAction::VolumeUp);
    assert_eq!(p.volume, 100);
    let mut q = Playback { frame: 0, volume: 0, paused: false };
    assert_eq!(q.on_key(258, &k, 5), PlayerAction::Next);
    assert_eq!(q.volume, 0);
}

#[test]
fn q_quits_and_other_keys_move_on() {
    let k = keys();
    let mut p = Playback { frame: 4, volume: 100, paused: false };
    assert_eq!(p.on_key(113, &k, 5), PlayerAction::Quit);
    assert_eq!(p.frame, 4);
    assert_eq!(p.on_key(-1, &k, 5), PlayerAction::Next);
    assert_eq!(p.on_key(120, &k, 5), PlayerAction::Next);
    assert_eq!(p.frame, 6);
}

#[test]
fn volume_stays_a_multiple_of_five_up_to_a_hundred() {
    let k = keys();
    let mut p = Playback::new();
    let presses = [258, 258, 259, 258, 259, 259, 259, 258, 258, 258, 258, 258, 258, 258, 258, 258,
        258, 258, 258, 258, 258, 258, 258, 258, 258, 258, 259];
    for key in presses {
        p.on_key(key, &k, 10);
        assert!(p.volume <= 100 && p.volume % 5 == 0);
    }
    assert_eq!(p.volume, 10);
}

#[test]
fn time_field_joins_two_readings() {
    assert_eq!(time_field("01:01", "1:02:05"), " 01:01/1:02:05 ");
    assert_eq!(time_field("", ""), " / ");
}

#[test]
fn bar_from_any_time_text() {
    let t = bar_text_from(false, 30, " 4661:00:00/4661:00:01 ".to_string());
    assert_eq!(t.icon, "|| ");
    assert_eq!(t.capacity, 30 - (3 + 23 + 2));
    let t = bar_text_from(true, 10, " 1/2 ".to_string());
    assert_eq!(t.capacity, 0);
    let wrapped = bar_text_from(true, u32::MAX, " 00:00/00:00 ".to_string());
    assert_eq!(wrapped.capacity, 0);
    assert_eq!(bar_line(&wrapped, 1), "|>  00:00/00:00 [#]");
}

#[test]
fn clock_fields_add_up() {
    for t in [0u32, 59, 60, 3599, 3600, 3661, 86399, 16777215] {
        let text = format_time(t);
        let fields: Vec<u32> = text.split(':').map(|f| f.parse().unwrap()).collect();
        let parts: Vec<&str> = text.split(':').collect();
        assert!(parts[1..].iter().all(|p| p.len() == 2));
        let value = fields.iter().fold(0, |acc, f| acc * 60 + f);
        assert_eq!(value, t);
        assert_eq!(fields.len(), if t >= 3600 { 3 } else { 2 });
    }
}
