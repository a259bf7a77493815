use vidimg::gallery::{Gallery, Visit};
use vidimg::keys::KeyCodes;
use vidimg::media::MediaType;
use vidimg::youtube::{download_command, parse_listing, search_command, SearchAction, SearchScreen};

fn keys() -> KeyCodes {
    KeyCodes { up: 259, down: 258, left: 260, right: 261, enter: 343, backspace: 263 }
}

#[test]
fn gallery_moves_around_in_a_circle() {
    let k = keys();
    let mut g = Gallery::new(3);
    assert_eq!((g.index(), g.len()), (0, 3));
    assert!(!g.on_key(261, &k));
    assert!(!g.on_key(261, &k));
    assert_eq!(g.index(), 2);
    assert!(!g.on_key(261, &k));
    assert_eq!(g.index(), 0);
    assert!(!g.on_key(260, &k));
    assert_eq!(g.index(), 2);
    assert!(!g.on_key(120, &k));
    assert_eq!(g.index(), 2);
    assert!(g.on_key(27, &k));
    assert!(g.on_key(113, &k));
    assert_eq!(g.index(), 2);
}

#[test]
fn gallery_skips_what_it_cannot_show() {
    let mut g = Gallery::new(2);
    assert_eq!(g.visit("notes.txt", MediaType::Unknown), Visit::Skip);
    assert_eq!(g.index(), 1);
    assert_eq!(g.visit("sub", MediaType::Folder), Visit::Skip);
    assert_eq!(g.index(), 0);
    assert_eq!(g.visit("a.png", MediaType::Image), Visit::ShowImage);
    assert_eq!(g.index(), 0);
}

#[test]
fn gallery_offers_a_video_once() {
    let mut g = Gallery::new(2);
    assert_eq!(g.visit("a.mp4", MediaType::Video), Visit::AskVideo);
    assert_eq!(g.visit("a.mp4", MediaType::Video), Visit::VideoSeen);
    assert_eq!(g.visit("b.mp4", MediaType::Video), Visit::AskVideo);
    assert_eq!(g.visit("a.mp4", MediaType::Video), Visit::AskVideo);
}

#[test]
fn listing_lines_split_at_the_last_bar() {
    let out = "Title A|https://a\r\nT\u{ef}tle|B|https://b\nno bar\n|empty\nlast|x\r";
    let v = parse_listing(out);
    let expect: Vec<(String, String)> = vec![
        ("Title A".to_string(), "https://a".to_string()),
        ("Ttle|B".to_string(), "https://b".to_string()),
        ("".to_string(), "empty".to_string()),
        ("last".to_string(), "x\r".to_string()),
    ];
    assert_eq!(v, expect);
}

#[test]
fn empty_listing_has_no_entries() {
    assert_eq!(parse_listing(""), vec![]);
    assert_eq!(parse_listing("\n\n"), vec![]);
    assert_eq!(parse_listing("a|b\n"), vec![("a".to_string(), "b".to_string())]);
}

#[test]
fn search_command_asks_for_a_page() {
    assert_eq!(
        search_command("cats", 0, 10),
        "yt-dlp \"ytsearch10:cats\" --playlist-items 1:10 --print \"%(title)s|%(webpage_url)s\""
    );
    assert_eq!(
        search_command("dogs", 1, 10),
        "yt-dlp \"ytsearch20:dogs\" --playlist-items 11:20 --print \"%(title)s|%(webpage_url)s\""
    );
}

#[test]
fn download_command_quotes_the_address() {
    assert_eq!(
        download_command("https://x"),
        "yt-dlp -f \"ba+bv/b\" -o \"vidimg_yt_dlp/yt.%(ext)s\" \"https://x\""
    );
}

#[test]
fn search_screen_types_and_searches() {
    let k = keys();
    let mut s = SearchScreen::new();
    assert_eq!(s.on_key(-1, &k), SearchAction::Wait);
    assert_eq!(s.on_key(9, &k), SearchAction::Redraw);
    assert!(s.searching());
    assert_eq!(s.on_key(99, &k), SearchAction::Redraw);
    assert_eq!(s.on_key(97, &k), SearchAction::Redraw);
    assert_eq!(s.on_key(113, &k), SearchAction::Redraw);
    assert_eq!(s.query(), "caq");
    assert_eq!(s.on_key(263, &k), SearchAction::Redraw);
    assert_eq!(s.query(), "ca");
    assert_eq!(s.on_key(-1, &k), SearchAction::Wait);
    assert_eq!(s.on_key(10, &k), SearchAction::Search);
    assert!(!s.searching());
    s.set_results(3);
    assert_eq!(s.on_key(-1, &k), SearchAction::Redraw);
    assert_eq!(s.on_key(-1, &k), SearchAction::Wait);
}

#[test]
fn search_screen_cursor_wraps() {
    let k = keys();
    let mut s = SearchScreen::new();
    assert_eq!(s.on_key(10, &k), SearchAction::Skip);
    assert_eq!(s.on_key(258, &k), SearchAction::Redraw);
    assert_eq!(s.curs_pos(), 0);
    s.set_results(3);
    assert_eq!(s.on_key(258, &k), SearchAction::Redraw);
    assert_eq!(s.curs_pos(), 1);
    assert_eq!(s.on_key(259, &k), SearchAction::Redraw);
    assert_eq!(s.on_key(259, &k), SearchAction::Redraw);
    assert_eq!(s.curs_pos(), 2);
    assert_eq!(s.on_key(258, &k), SearchAction::Redraw);
    assert_eq!(s.curs_pos(), 0);
    assert_eq!(s.on_key(343, &k), SearchAction::Download(0));
    assert_eq!(s.on_key(113, &k), SearchAction::Quit);
}

#[test]
fn search_screen_refuses_codes_that_are_no_characters() {
    let k = keys();
    let mut s = SearchScreen::new();
    assert!(s.accepts_key(-5, &k));
    assert_eq!(s.on_key(9, &k), SearchAction::Redraw);
    assert!(!s.accepts_key(-5, &k));
    assert!(!s.accepts_key(0xD800, &k));
    assert!(s.accepts_key(-1, &k));
    assert!(s.accepts_key(0x263A, &k));
    assert_eq!(s.on_key(0x263A, &k), SearchAction::Redraw);
    assert_eq!(s.query(), "\u{263A}");
}

#[test]
fn browsing_shows_the_first_media_entry_at_or_after_the_target() {
    // entries: 0 text, 1 picture, 2 folder, 3 video, 4 text
    let kinds = [MediaType::Unknown, MediaType::Image, MediaType::Folder, MediaType::Video, MediaType::Unknown];
    let names = ["a.txt", "b.png", "c", "d.mp4", "e.txt"];
    let k = keys();
    let mut g = Gallery::new(5);
    let mut settle = |g: &mut Gallery| loop {
        let i = g.index();
        match g.visit(names[i], kinds[i]) {
            Visit::Skip => continue,
            _ => return i,
        }
    };
    assert_eq!(settle(&mut g), 1);
    g.on_key(261, &k);
    assert_eq!(settle(&mut g), 3);
    g.on_key(261, &k);
    assert_eq!(settle(&mut g), 1);
    g.on_key(260, &k);
    assert_eq!(settle(&mut g), 1);
    g.on_key(120, &k);
    assert_eq!(settle(&mut g), 1);
}
