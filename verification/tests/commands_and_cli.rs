use vidimg::cli::{launch_mode, parse_args, Mode};
use vidimg::commands::{audio_command, frames_command, probe_command, split_rate, video_prompt};
use vidimg::media::MediaType;
use vidimg::text::{chars_of, same_text, strip_unicode};

#[test]
fn probe_command_names_the_video() {
    assert_eq!(
        probe_command("v.mp4"),
        "ffprobe -v error -select_streams v:0 -show_entries stream=r_frame_rate -of default=noprint_wrappers=1:nokey=1 v.mp4"
    );
}

#[test]
fn frames_command_sizes_for_the_terminal() {
    assert_eq!(
        frames_command("v.mp4", 80, 24),
        "ffmpeg -i \"v.mp4\" -vf \"scale=80:45:force_original_aspect_ratio=decrease,scale=iw:ih*0.5,pad=80:24:(ow-iw)/2:(oh-ih)/2,setsar=1\" -sws_flags neighbor imgs/image%50d.png -threads 0"
    );
    assert!(frames_command("v", 0, 0).contains("scale=0:-3:"));
}

#[test]
fn audio_command_uses_the_socket() {
    assert_eq!(
        audio_command("/tmp/mpv_socket", "v.mp4"),
        "mpv --no-video --quiet --no-terminal --input-ipc-server=/tmp/mpv_socket \"v.mp4\""
    );
}

#[test]
fn video_prompt_blanks_fifty_cells() {
    let p = video_prompt("a.mp4");
    assert_eq!(p, format!("Show video 'a.mp4'? (y/n){}", " ".repeat(50)));
}

#[test]
fn frame_rates_split_at_the_first_slash() {
    assert_eq!(split_rate("  30000/1001\n"), Some(("30000".to_string(), "1001".to_string())));
    assert_eq!(split_rate("\u{3000}24/1 "), Some(("24".to_string(), "1".to_string())));
    assert_eq!(split_rate("a/b/c"), Some(("a".to_string(), "b/c".to_string())));
    assert_eq!(split_rate("25"), None);
    assert_eq!(split_rate(""), None);
    assert_eq!(split_rate(" / "), Some(("".to_string(), "".to_string())));
}

fn args(v: &[&str]) -> Vec<String> {
    v.iter().map(|s| s.to_string()).collect()
}

#[test]
fn no_argument_means_no_options() {
    assert!(parse_args(&args(&["prog"])).is_none());
    assert!(parse_args(&args(&[])).is_none());
}

#[test]
fn flags_and_the_last_path_are_read() {
    let o = parse_args(&args(&["prog", "-2", "pic.png"])).unwrap();
    assert!(o.unicode && !o.youtube);
    assert_eq!(o.path, "pic.png");
    let o = parse_args(&args(&["prog", "a", "--youtube", "b", "--set2"])).unwrap();
    assert!(o.unicode && o.youtube);
    assert_eq!(o.path, "b");
    let o = parse_args(&args(&["prog", "-yt"])).unwrap();
    assert!(o.youtube && !o.unicode);
    assert_eq!(o.path, "");
}

#[test]
fn mode_follows_the_media_type() {
    let o = parse_args(&args(&["prog", "x"])).unwrap();
    assert_eq!(launch_mode(&o, MediaType::Image), Mode::Gallery);
    assert_eq!(launch_mode(&o, MediaType::Folder), Mode::Gallery);
    assert_eq!(launch_mode(&o, MediaType::Video), Mode::Video);
    assert_eq!(launch_mode(&o, MediaType::Unknown), Mode::Unsupported);
    let y = parse_args(&args(&["prog", "x", "-yt"])).unwrap();
    assert_eq!(launch_mode(&y, MediaType::Video), Mode::YouTube);
}

#[test]
fn text_helpers() {
    assert_eq!(strip_unicode("h\u{e9}llo w\u{f6}rld"), "hllo wrld");
    assert_eq!(strip_unicode(""), "");
    assert_eq!(chars_of("a\u{e9}"), vec!['a', '\u{e9}']);
    assert!(same_text("ab", "ab"));
    assert!(!same_text("ab", "abc"));
    assert!(!same_text("ab", "ac"));
}

#[test]
fn stripping_twice_is_stripping_once() {
    let once = strip_unicode("a\u{1F600}b\u{e9}c");
    assert_eq!(once, "abc");
    assert_eq!(strip_unicode(&once), once);
}
