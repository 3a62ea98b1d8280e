use ui_designer::files::{canvas_data_json, data_comment_of, has_data_comment};
use ui_designer::model::{Canvas, CanvasData, FontSize, UiItem};

fn pretty(compact: &str) -> String {
    let v: serde_json::Value = serde_json::from_str(compact).unwrap();
    serde_json::to_string_pretty(&v).unwrap()
}

#[test]
fn data_comment_drops_the_items_wrapper() {
    let json = pretty(r#"{"items":[{"Base":4660},{"Rect":[1,2,3,4,5]}]}"#);
    let expected = "{\n  \"Base\": 4660\n},\n{\n  \"Rect\": [\n    1,\n    2,\n    3,\n    4,\n    5\n  ]\n}";
    assert_eq!(data_comment_of(&json), expected);
}

#[test]
fn empty_canvas_reads_back_as_no_items() {
    let c = Canvas::new(CanvasData { items: vec![] }, "new".to_string());
    let json = pretty(r#"{"items":[]}"#);
    let text = c.c_file(&json, &vec![]);
    assert!(text.starts_with(
        "// autogenerated ui file by ittyOS-ui-designer. dont modify manually please <3\n\n/*\n\n*/\n\n"
    ));
    assert!(has_data_comment(&text));
    let back = canvas_data_json(&text);
    assert_eq!(back, "{\"items\":[]}");
    let a: serde_json::Value = serde_json::from_str(&back).unwrap();
    assert_eq!(a, serde_json::from_str::<serde_json::Value>(r#"{"items":[]}"#).unwrap());
}

#[test]
fn h_file_declares_both_functions() {
    let c = Canvas::new(CanvasData { items: vec![] }, "game".to_string());
    assert_eq!(
        c.h_file(),
        "// autogenerated ui file by ittyOS-ui-designer. dont modify manually please <3\n\nvoid gameDrawCallback(int i);\nvoid gameDraw();\n"
    );
}

#[test]
fn c_file_starts_with_the_data_comment() {
    let c = Canvas::new(CanvasData { items: vec![UiItem::Base(0x0101)] }, "g".to_string());
    let json = pretty(r#"{"items":[{"Base":257}]}"#);
    let text = c.c_file(&json, &vec![]);
    let expected_start = "// autogenerated ui file by ittyOS-ui-designer. dont modify manually please <3\n\n/*\n{\n  \"Base\": 257\n}\n*/\n\n";
    assert!(text.starts_with(expected_start));
    assert_eq!(
        &text[expected_start.len()..],
        "void gDrawCallback(int i) {\nfor (int o=0; o<40;o++) {\nmemset(&disp_buf[o*480*2],0x0101,480*2);\n}\n}\n\nvoid gDraw() {\n  \n  for (int i = 0; i < 320/HOR_LEN; i++) {\n    gDrawCallback(i);\n  }\n}\n"
    );
}

#[test]
fn written_file_reads_back_as_the_same_data() {
    let items = vec![
        UiItem::Base(0x1234),
        UiItem::Rect(10, 0, 20, 50, 0xffff),
        UiItem::Text(5, 35, "Hi".to_string(), FontSize::Font_7x10, 0),
    ];
    let compact = r#"{"items":[{"Base":4660},{"Rect":[10,0,20,50,65535]},{"Text":[5,35,"Hi","Font_7x10",0]}]}"#;
    let c = Canvas::new(CanvasData { items }, "main".to_string());
    let text = c.c_file(&pretty(compact), &vec![]);
    assert!(has_data_comment(&text));
    let back = canvas_data_json(&text);
    let a: serde_json::Value = serde_json::from_str(&back).unwrap();
    let b: serde_json::Value = serde_json::from_str(compact).unwrap();
    assert_eq!(a, b);
}

#[test]
fn reading_needs_a_comment() {
    assert!(!has_data_comment("no comment here"));
    assert!(!has_data_comment("/* never closed"));
    assert!(!has_data_comment("*/ before /*"));
    assert!(has_data_comment("x /*  {\"Base\":1}\n */ y */"));
    assert_eq!(canvas_data_json("x /*  {\"Base\":1}\n */ y */"), "{\"items\":[{\"Base\":1}]}");
}

#[test]
fn reading_trims_unicode_white_space() {
    assert_eq!(canvas_data_json("/*\u{3000}\t1\u{a0}\r\n*/"), "{\"items\":[1]}");
}

#[test]
fn only_the_first_comment_is_read() {
    let text = "// x\n/*  {\"Base\":2}\n\t*/ code /* {\"Base\":3} */";
    assert_eq!(canvas_data_json(text), canvas_data_json("/*{\"Base\":2}*/"));
    assert_eq!(canvas_data_json(text), "{\"items\":[{\"Base\":2}]}");
}
