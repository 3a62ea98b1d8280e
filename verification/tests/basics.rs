use ui_designer::chunks::{get_chunks_of_rect, get_chunks_of_text};
use ui_designer::color::{is_color_same_bytes, u16_to_rgb};
use ui_designer::model::{Canvas, CanvasData, FontSize, UiItem};
use ui_designer::pixels::rgb_to_rgba;

#[test]
fn font_sizes_come_from_the_font_names() {
    assert_eq!(FontSize::Font_7x10.get_size(), (7, 10));
    assert_eq!(FontSize::Font_11x18.get_size(), (11, 18));
    assert_eq!(FontSize::Font_16x26.get_size(), (16, 26));
}

#[test]
fn font_names_are_written_as_debug_does() {
    for f in [FontSize::Font_7x10, FontSize::Font_11x18, FontSize::Font_16x26] {
        let mut out: Vec<char> = Vec::new();
        f.push_name(&mut out);
        assert_eq!(out.iter().collect::<String>(), format!("{:?}", f));
    }
}

#[test]
fn same_bytes_colors() {
    assert!(is_color_same_bytes(0xabab));
    assert!(is_color_same_bytes(0x0000));
    assert!(is_color_same_bytes(0xffff));
    assert!(!is_color_same_bytes(0x1234));
    assert!(!is_color_same_bytes(0x00ff));
}

#[test]
fn rgb565_little_endian_colors() {
    assert_eq!(u16_to_rgb(0x00f8), (248, 0, 0));
    assert_eq!(u16_to_rgb(0xe007), (0, 252, 0));
    assert_eq!(u16_to_rgb(0x1f00), (0, 0, 248));
    assert_eq!(u16_to_rgb(0xffff), (248, 252, 248));
    assert_eq!(u16_to_rgb(0x0000), (0, 0, 0));
    // 0x1234 stored little-endian is 0x3412 = 00110 100000 10010
    assert_eq!(u16_to_rgb(0x1234), (48, 128, 144));
}

#[test]
fn rect_chunks_are_the_bands_starting_inside() {
    assert_eq!(get_chunks_of_rect(0, 320), vec![0, 1, 2, 3, 4, 5, 6, 7]);
    assert_eq!(get_chunks_of_rect(35, 50), vec![1, 2]);
    assert_eq!(get_chunks_of_rect(40, 0), vec![1]);
    assert_eq!(get_chunks_of_rect(5, 10), Vec::<usize>::new());
    assert_eq!(get_chunks_of_rect(281, 1000), Vec::<usize>::new());
}

#[test]
fn text_chunks_are_the_bands_starting_or_ending_inside() {
    assert_eq!(get_chunks_of_text(5, 10), Vec::<usize>::new());
    assert_eq!(get_chunks_of_text(30, 18), vec![0, 1]);
    assert_eq!(get_chunks_of_text(0, 26), vec![0]);
    assert_eq!(get_chunks_of_text(270, 26), vec![6, 7]);
    assert_eq!(get_chunks_of_text(290, 26), Vec::<usize>::new());
    assert_eq!(get_chunks_of_text(65535, 26), Vec::<usize>::new());
}

#[test]
fn alpha_is_added_after_every_three_bytes() {
    assert_eq!(rgb_to_rgba(&vec![1, 2, 3, 4, 5, 6, 7]), vec![1, 2, 3, 255, 4, 5, 6, 255, 7, 255]);
    assert_eq!(rgb_to_rgba(&vec![1, 2, 3]), vec![1, 2, 3, 255]);
    assert_eq!(rgb_to_rgba(&vec![9, 8]), vec![9, 8, 255]);
    assert_eq!(rgb_to_rgba(&vec![]), Vec::<u8>::new());
}

#[test]
fn canvas_holds_its_items_and_name() {
    let c = Canvas::from_items(vec![UiItem::Base(7)], "screen".to_string());
    assert_eq!(c.name, "screen");
    assert_eq!(c.data.items.len(), 1);
    assert!(matches!(c.data.items[0], UiItem::Base(7)));
}
