use vidimg::media::{get_type, media_type_of_lowercase, MediaType};
use vidimg::picture::{
    brightness_char, color_pair_for, identity_map, max_brightness_level, native_cells, native_layout,
    scaled_layout, visible_cells, Img, Layout,
};

#[test]
fn images_are_recognized_in_any_case() {
    assert_eq!(get_type("photo.PNG", false), MediaType::Image);
    assert_eq!(get_type("photo.jpeg", false), MediaType::Image);
    assert_eq!(get_type("Pic.FarbFeld", false), MediaType::Image);
    assert_eq!(get_type("pic.avif", false), MediaType::Image);
}

#[test]
fn videos_are_recognized_in_any_case() {
    assert_eq!(get_type("movie.Mp4", false), MediaType::Video);
    assert_eq!(get_type("clip.3GP", false), MediaType::Video);
    assert_eq!(get_type("anim.gif", false), MediaType::Video);
}

#[test]
fn directories_are_folders_whatever_their_name() {
    assert_eq!(get_type("holiday", true), MediaType::Folder);
    assert_eq!(get_type("album.png", true), MediaType::Folder);
}

#[test]
fn other_names_are_unknown() {
    assert_eq!(get_type("notes.txt", false), MediaType::Unknown);
    assert_eq!(get_type("", false), MediaType::Unknown);
    assert_eq!(get_type("png", false), MediaType::Unknown);
    assert_eq!(get_type("movie.mp4.bak", false), MediaType::Unknown);
}

#[test]
fn only_the_last_ending_counts() {
    assert_eq!(get_type("a.png.mp4", false), MediaType::Video);
    assert_eq!(get_type("a.mp4.png", false), MediaType::Image);
}

#[test]
fn classification_of_lowercase_names_is_case_sensitive() {
    assert_eq!(media_type_of_lowercase("a.png", false), MediaType::Image);
    assert_eq!(media_type_of_lowercase("a.PNG", false), MediaType::Unknown);
}

#[test]
fn pixels_are_read_three_bytes_at_a_time() {
    let img = Img::from_rgb_bytes(2, 1, &vec![1, 2, 3, 4, 5, 6, 7]);
    assert_eq!(img.width, 2);
    assert_eq!(img.height, 1);
    assert_eq!(img.data, vec![[1, 2, 3], [4, 5, 6]]);
}

fn two_by_two() -> Img {
    Img::from_rgb_bytes(2, 2, &vec![0, 0, 0, 1, 1, 1, 2, 2, 2, 3, 3, 3])
}

#[test]
fn native_layout_centers_horizontally_and_starts_above_the_top() {
    let img = two_by_two();
    let l = native_layout(&img, 3, 4);
    assert_eq!(l, Layout { scaled_height: 2, scaled_width: 2, x_offset: 1, y_offset: -1 });
    let l = native_layout(&img, 3, 1);
    assert_eq!(l.x_offset, 0);
    let wide = Img::from_rgb_bytes(5, 1, &vec![0; 15]);
    assert_eq!(native_layout(&wide, 3, 0).x_offset, -2);
}

#[test]
fn scaled_layout_centers_both_ways() {
    let l = scaled_layout(10, 1, 5, 4);
    assert_eq!(l, Layout { scaled_height: 5, scaled_width: 4, x_offset: -1, y_offset: 2 });
}

#[test]
fn native_cells_skip_the_row_above_the_terminal() {
    let img = two_by_two();
    let cells = native_cells(&img, 3, 4);
    assert_eq!(cells.len(), 2);
    assert_eq!((cells[0].y, cells[0].x, cells[0].pixel), (0, 1, [2, 2, 2]));
    assert_eq!((cells[1].y, cells[1].x, cells[1].pixel), (0, 2, [3, 3, 3]));
}

#[test]
fn cells_off_the_right_edge_are_not_drawn() {
    let img = two_by_two();
    let layout = Layout { scaled_height: 2, scaled_width: 2, x_offset: 1, y_offset: 0 };
    let cells = visible_cells(&img, &layout, 5, 2, &identity_map(2), &identity_map(2));
    assert_eq!(cells.len(), 2);
    assert_eq!((cells[0].y, cells[0].x, cells[0].pixel), (0, 1, [0, 0, 0]));
    assert_eq!((cells[1].y, cells[1].x, cells[1].pixel), (1, 1, [2, 2, 2]));
}

#[test]
fn scaled_maps_repeat_source_pixels() {
    let img = two_by_two();
    let layout = Layout { scaled_height: 1, scaled_width: 4, x_offset: 0, y_offset: 0 };
    let cells = visible_cells(&img, &layout, 1, 4, &vec![1], &vec![0, 0, 1, 1]);
    let pixels: Vec<[u8; 3]> = cells.iter().map(|c| c.pixel).collect();
    assert_eq!(pixels, vec![[2, 2, 2], [2, 2, 2], [3, 3, 3], [3, 3, 3]]);
}

#[test]
fn missing_pixels_are_not_drawn() {
    let img = Img::from_rgb_bytes(2, 2, &vec![9, 9, 9]);
    let cells = native_cells(&img, 5, 2);
    assert_eq!(cells.len(), 0);
    let layout = Layout { scaled_height: 1, scaled_width: 2, x_offset: 0, y_offset: 0 };
    let cells = visible_cells(&img, &layout, 1, 2, &vec![0], &vec![0, 1]);
    assert_eq!(cells.len(), 1);
    assert_eq!(cells[0].pixel, [9, 9, 9]);
}

#[test]
fn greys_and_white_have_no_color_pair() {
    assert_eq!(color_pair_for(0), Some(1));
    assert_eq!(color_pair_for(9), Some(10));
    assert_eq!(color_pair_for(7), None);
    assert_eq!(color_pair_for(8), None);
    assert_eq!(color_pair_for(15), None);
}

#[test]
fn brightness_characters() {
    assert_eq!(max_brightness_level(false), 8);
    assert_eq!(max_brightness_level(true), 10);
    assert_eq!(brightness_char(0, false), ' ');
    assert_eq!(brightness_char(3, false), '"');
    assert_eq!(brightness_char(8, false), '$');
    assert_eq!(brightness_char(1, true), ' ');
    assert_eq!(brightness_char(2, true), '.');
    assert_eq!(brightness_char(10, true), '@');
}

#[test]
fn brighter_levels_never_step_back_in_the_ramp() {
    for unicode in [false, true] {
        let max = max_brightness_level(unicode);
        let ramp: Vec<char> = (0..=max).map(|l| brightness_char(l, unicode)).collect();
        let pos = |c: char| ramp.iter().position(|&d| d == c).unwrap();
        for l in 0..max {
            assert!(pos(brightness_char(l, unicode)) <= pos(brightness_char(l + 1, unicode)));
        }
    }
}
