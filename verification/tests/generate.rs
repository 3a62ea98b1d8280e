use ui_designer::codegen::{img_setup_code_of, text_code_of};
use ui_designer::model::{Canvas, CanvasData, FontSize, UiItem};

fn canvas(name: &str, items: Vec<UiItem>) -> Canvas {
    Canvas::new(CanvasData { items }, name.to_string())
}

/// The code before the blocks of the band ranges, the blocks in sorted
/// order, and the code after them: the blocks come in the order in which a
/// hash map hands them out.
fn split_blocks(code: &str) -> (String, Vec<String>, String) {
    let end = code.find("}\n\nvoid ").unwrap();
    let start = code[..end].find("if (i >= ").unwrap_or(end);
    let mut blocks: Vec<String> = code[start..end]
        .split("if (i >= ")
        .filter(|b| !b.is_empty())
        .map(|b| format!("if (i >= {}", b))
        .collect();
    blocks.sort();
    (code[..start].to_string(), blocks, code[end..].to_string())
}

fn assert_same_code(actual: &str, expected: &str) {
    assert_eq!(split_blocks(actual), split_blocks(expected));
}

#[test]
fn generate_code_mixed_items() {
    let c = canvas(
        "main",
        vec![
            UiItem::Base(0x1234),
            UiItem::Rect(10, 0, 20, 50, 0xffff),
            UiItem::Text(5, 35, "Hi".to_string(), FontSize::Font_7x10, 0x0000),
            UiItem::Img(0, 80, "a.ibi".to_string()),
        ],
    );
    let sizes = vec![(16u32, 30u32)];
    assert!(c.can_generate(&sizes));
    let expected = "void mainDrawCallback(int i) {\nfor (int o=0; o<40;o++) {\nmemset_u16(&disp_buf[o*480*2],0x1234,480*2);\n}\nif (i >= 1 && i <= 1) {\nfor (int o = 0; o<40; o++) {\nif (o<10) {\nmemset(&disp_buf[o*480*2+10*2],0xffff,20*2);\nfor (int o=0; o<10;o++) {\n}\n}\n}\n}\nif (i >= 0 && i <= 0) {\nfor (int o = 0; o<40; o++) {\nmemset(&disp_buf[o*480*2+10*2],0xffff,20*2);\n}\n}\nif (i >= 0 && i <= 1) {\nwriteStringToBuffer(5, 35-o*HOR_LEN, \"Hi\", Font_7x10, 0x0000, disp_buf, 480, HOR_LEN);\n}\nif (i >= 2 && i <= 2) {\nfor (int o = 0; o<40; o++) {\nint currentY = i*HOR_LEN+O;\n                    if (currentY >= 80) {\n                        res = f_lseek(&img0, (currentY-80)*width*2);\n                        if (res != FR_OK) {\n                            print(\"f_seek failed with code: %d\r\n\", res);\n                        }\n                        res = f_read(&img0,\n                                    &disp_buf[(currentY-80)*480*2+0*2],\n                                    16*2, 0);\n                        if (res != FR_OK) {\n                            print(\"f_read failed with code: %d\r\n\", res);\n                        }\n                    }}\n}\n}\n\nvoid mainDraw() {\n  \nFIL img0;\nFRESULT res = f_open(&img0, \"a.ibi\", FA_READ);\nif (res != FR_OK) {\nprint(\"f_open failed with code: %d\r\n\", res);\nreturn;\n}\n  for (int i = 0; i < 320/HOR_LEN; i++) {\n    mainDrawCallback(i);\n  }\n}\n";
    assert_same_code(&c.generate_code(&sizes), expected);
}

#[test]
fn generate_code_merges_code_of_one_band_range() {
    let c = canvas(
        "s",
        vec![
            UiItem::Rect(1, 35, 2, 10, 0x0102),
            UiItem::Rect(3, 40, 4, 0, 0x0303),
            UiItem::ImgEx(0, 0, "b".to_string(), 0, 0, 0, 0),
        ],
    );
    let sizes: Vec<(u32, u32)> = vec![];
    assert!(c.can_generate(&sizes));
    let expected = "void sDrawCallback(int i) {\nif (i >= 1 && i <= 1) {\nfor (int o = 0; o<40; o++) {\nif (o<5) {\nmemset_u16(&disp_buf[o*480*2+1*2],0x0102,2*2);\nfor (int o=0; o<5;o++) {\n}\n}\nif (o<0) {\nmemset(&disp_buf[o*480*2+3*2],0x0303,4*2);\nfor (int o=0; o<0;o++) {\n}\n}\n}\n}\n}\n\nvoid sDraw() {\n  \n  for (int i = 0; i < 320/HOR_LEN; i++) {\n    sDrawCallback(i);\n  }\n}\n";
    assert_same_code(&c.generate_code(&sizes), expected);
}

#[test]
fn generate_code_empty_canvas() {
    let c = canvas("e", vec![]);
    let sizes: Vec<(u32, u32)> = vec![];
    assert!(c.can_generate(&sizes));
    let expected = "void eDrawCallback(int i) {\n}\n\nvoid eDraw() {\n  \n  for (int i = 0; i < 320/HOR_LEN; i++) {\n    eDrawCallback(i);\n  }\n}\n";
    assert_same_code(&c.generate_code(&sizes), expected);
}

#[test]
fn generate_code_quotes_text_and_paths() {
    let c = canvas(
        "q",
        vec![
            UiItem::Text(0, 0, "say \"hi\"\n".to_string(), FontSize::Font_16x26, 0xabcd),
            UiItem::Img(0, 0, "dir\\x.ibi".to_string()),
        ],
    );
    let sizes = vec![(1u32, 1u32)];
    let code = c.generate_code(&sizes);
    assert!(code.contains("writeStringToBuffer(0, 0-o*HOR_LEN, \"say \\\"hi\\\"\\n\", Font_16x26, 0xabcd, disp_buf, 480, HOR_LEN);\n"));
    assert!(code.contains("f_open(&img0, \"dir\\\\x.ibi\", FA_READ)"));
}

#[test]
fn can_generate_refuses_items_that_reach_no_band() {
    let none: Vec<(u32, u32)> = vec![];
    assert!(!canvas("a", vec![UiItem::Rect(0, 5, 1, 10, 0)]).can_generate(&none));
    assert!(!canvas("a", vec![UiItem::Rect(0, 65000, 1, 1000, 0)]).can_generate(&none));
    assert!(!canvas("a", vec![UiItem::Rect(0, 300, 1, 10, 0)]).can_generate(&none));
    assert!(!canvas("a", vec![UiItem::Text(0, 5, "t".to_string(), FontSize::Font_7x10, 0)]).can_generate(&none));
    assert!(canvas("a", vec![UiItem::Text(0, 30, "t".to_string(), FontSize::Font_7x10, 0)]).can_generate(&none));
    assert!(!canvas("a", vec![UiItem::Img(0, 0, "p".to_string())]).can_generate(&none));
    assert!(!canvas("a", vec![UiItem::Img(0, 5, "p".to_string())]).can_generate(&vec![(1, 10)]));
    assert!(canvas("a", vec![UiItem::Img(0, 0, "p".to_string())]).can_generate(&vec![(1, 65536)]));
    assert!(!canvas("a", vec![UiItem::Img(0, 1, "p".to_string())]).can_generate(&vec![(1, 65535)]));
    assert!(canvas("a", vec![UiItem::Base(1), UiItem::ImgEx(0, 5, "p".to_string(), 0, 0, 0, 0)]).can_generate(&none));
}

#[test]
fn generated_code_has_balanced_braces() {
    let c = canvas(
        "b",
        vec![
            UiItem::Base(0x1234),
            UiItem::Rect(10, 0, 20, 50, 0xffff),
            UiItem::Rect(1, 35, 2, 10, 0x0102),
            UiItem::Text(5, 35, "Hi".to_string(), FontSize::Font_7x10, 0x0000),
            UiItem::Img(0, 80, "a.ibi".to_string()),
        ],
    );
    let code = c.generate_code(&vec![(16, 30)]);
    assert_eq!(code.matches('{').count(), code.matches('}').count());
}

#[test]
fn cropped_images_add_no_code() {
    let base = vec![
        UiItem::Rect(10, 0, 20, 50, 0xffff),
        UiItem::Img(0, 80, "a.ibi".to_string()),
    ];
    let mut with_crops = base.clone();
    with_crops.insert(1, UiItem::ImgEx(3, 4, "c.ibi".to_string(), 1, 2, 3, 4));
    with_crops.insert(0, UiItem::ImgEx(0, 0, "d.ibi".to_string(), 0, 0, 0, 0));
    let sizes = vec![(16u32, 30u32)];
    let a = canvas("x", base);
    let b = canvas("x", with_crops);
    assert!(a.can_generate(&sizes) && b.can_generate(&sizes));
    assert_same_code(&a.generate_code(&sizes), &b.generate_code(&sizes));
}

#[test]
fn text_code_from_quoted_text() {
    let code: String = text_code_of(5, 35, "\"hi\"", FontSize::Font_11x18, 0x00ab).iter().collect();
    assert_eq!(code, "writeStringToBuffer(5, 35-o*HOR_LEN, \"hi\", Font_11x18, 0x00ab, disp_buf, 480, HOR_LEN);\n");
}

#[test]
fn image_setup_from_quoted_path() {
    let code: String = img_setup_code_of(12, "\"img/a.ibi\"").iter().collect();
    assert_eq!(
        code,
        "\nFIL img12;\nFRESULT res = f_open(&img12, \"img/a.ibi\", FA_READ);\nif (res != FR_OK) {\nprint(\"f_open failed with code: %d\r\n\", res);\nreturn;\n}"
    );
}
