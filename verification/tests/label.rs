use ptl::bitmap::LabelBitmap;
use ptl::compose::{compose_labels, make_cutmark, make_padding, push};
use ptl::error::PtlError;
use ptl::picture::{check_fits_after_text, scale_to_tape, scaled_width_of, LumaImage};
use ptl::labels::{assemble_label, json_line_content, parse_positional_args, tape_px_or_default, JsonLabelObject, JsonLine, LabelSpec, DEFAULT_TAPE_PX};
use ptl::text::{font_family_for, looks_like_image, parse_vid_pid, trim_str, FontFamily};

fn bitmap(width: u32, height: u32, ink: &[(u32, u32)]) -> LabelBitmap {
    let mut b = LabelBitmap::new_white(width, height);
    for &(x, y) in ink {
        b.set_pixel(x, y);
    }
    b
}

fn strings(v: &[&str]) -> Vec<String> {
    v.iter().map(|s| s.to_string()).collect()
}

#[test]
fn new_white_is_blank() {
    let b = LabelBitmap::new_white(3, 2);
    assert_eq!(b.width, 3);
    assert_eq!(b.height, 2);
    assert_eq!(b.pixels, vec![0; 6]);
}

#[test]
fn set_then_get_pixel() {
    let mut b = LabelBitmap::new_white(3, 2);
    b.set_pixel(2, 1);
    assert_eq!(b.get_pixel(2, 1), 255);
    assert_eq!(b.pixels, vec![0, 0, 0, 0, 0, 255]);
    b.set_pixel(3, 0); // outside: ignored
    b.set_pixel(0, 2); // outside: ignored
    assert_eq!(b.pixels, vec![0, 0, 0, 0, 0, 255]);
}

#[test]
fn append_places_bitmaps_side_by_side() {
    let mut a = bitmap(2, 2, &[(0, 0)]);
    let b = bitmap(1, 2, &[(0, 1)]);
    a.append(&b);
    assert_eq!(a.width, 3);
    assert_eq!(a.height, 2);
    assert_eq!(a.pixels, vec![255, 0, 0, 0, 0, 255]);
}

#[test]
fn append_is_associative() {
    let a = bitmap(2, 3, &[(1, 0)]);
    let b = bitmap(1, 3, &[(0, 2)]);
    let c = bitmap(3, 3, &[(2, 1)]);
    let mut left = a.clone();
    left.append(&b);
    left.append(&c);
    let mut bc = b.clone();
    bc.append(&c);
    let mut right = a.clone();
    right.append(&bc);
    assert_eq!(left.width, right.width);
    assert_eq!(left.pixels, right.pixels);
}

#[test]
fn luma_threshold_and_inversion() {
    let b = LabelBitmap::from_luma(2, 2, &[0, 127, 128, 255]);
    assert_eq!(b.pixels, vec![255, 255, 0, 0]);
    assert_eq!(b.to_luma(), vec![0, 0, 255, 255]);
    // Round trip through grayscale keeps the bitmap.
    let c = LabelBitmap::from_luma(2, 2, &b.to_luma());
    assert_eq!(c.pixels, b.pixels);
}

#[test]
fn glyph_coverage_is_clipped_and_thresholded() {
    let mut b = LabelBitmap::new_white(4, 3);
    b.plot_coverage(-1, 0, 3, 2, 200, 1); // covers x -1..2, rows 1..3
    assert_eq!(b.pixels, vec![0, 0, 0, 0, 255, 255, 0, 0, 255, 255, 0, 0]);
    let before = b.pixels.clone();
    b.plot_coverage(0, 0, 4, 3, 63, 0); // too faint: nothing drawn
    assert_eq!(b.pixels, before);
    b.plot_coverage(3, -5, 5, 10, 64, 0); // clipped to column 3
    assert_eq!(b.pixels, vec![0, 0, 0, 255, 255, 255, 0, 255, 255, 255, 0, 255]);
}

#[test]
fn padding_and_cutmark() {
    let p = make_padding(3, 2);
    assert_eq!(p.width, 3);
    assert_eq!(p.pixels, vec![0; 6]);
    let c = make_cutmark(10);
    assert_eq!(c.width, 5);
    assert_eq!(c.height, 10);
    for y in 0..10u32 {
        for x in 0..5u32 {
            let ink = x == 2 && (y / 4) % 2 == 0;
            assert_eq!(c.get_pixel(x, y), if ink { 255 } else { 0 }, "({x},{y})");
        }
    }
}

#[test]
fn push_starts_then_appends() {
    let mut acc: Option<LabelBitmap> = None;
    push(&mut acc, bitmap(1, 2, &[(0, 0)]));
    assert_eq!(acc.as_ref().unwrap().width, 1);
    push(&mut acc, bitmap(2, 2, &[(1, 1)]));
    let b = acc.unwrap();
    assert_eq!(b.width, 3);
    assert_eq!(b.pixels, vec![255, 0, 0, 0, 0, 255]);
}

#[test]
fn compose_with_cut_and_padding() {
    let tape = 8u32;
    let a = bitmap(3, tape, &[(0, 0)]);
    let b = bitmap(4, tape, &[(3, 7)]);
    let out = compose_labels(vec![a, b], 2, true, tape);
    // [cut 5][pad 2] A(3) [pad 2] [cut 5][pad 2] B(4) [pad 2]
    assert_eq!(out.width, 5 + 2 + 3 + 2 + 5 + 2 + 4 + 2);
    assert_eq!(out.height, tape);
    assert_eq!(out.get_pixel(2, 0), 255); // first cut mark
    assert_eq!(out.get_pixel(7, 0), 255); // label A's ink
    assert_eq!(out.get_pixel(12 + 2, 0), 255); // second cut mark
    assert_eq!(out.get_pixel(12 + 5 + 2 + 3, 7), 255); // label B's ink
    let inked: usize = out.pixels.iter().filter(|&&p| p == 255).count();
    assert_eq!(inked, 2 * 4 + 2); // two cut marks of 4 dashes rows each, two label pixels
}

#[test]
fn compose_without_decoration_concatenates() {
    let a = bitmap(1, 2, &[(0, 1)]);
    let b = bitmap(2, 2, &[(0, 0)]);
    let out = compose_labels(vec![a, b], 0, false, 99);
    assert_eq!(out.width, 3);
    assert_eq!(out.height, 2);
    assert_eq!(out.pixels, vec![0, 255, 0, 255, 0, 0]);
}

fn luma(width: u32, height: u32, level: u8) -> LumaImage {
    LumaImage { width, height, luma: vec![level; (width * height) as usize] }
}

#[test]
fn images_scale_to_tape_height() {
    // Twice as tall keeps the aspect ratio: 2x2 becomes 4x4.
    let b = scale_to_tape(&luma(2, 2, 0), 4);
    assert_eq!((b.width, b.height), (4, 4));
    assert!(b.pixels.iter().all(|&p| p == 255));
    // Shrinking a tall image: 3x12 to 4 rows is 1x4.
    let b = scale_to_tape(&luma(3, 12, 255), 4);
    assert_eq!((b.width, b.height), (1, 4));
    assert!(b.pixels.iter().all(|&p| p == 0));
    // Width rounds to the nearest column, and is at least one.
    assert_eq!(scaled_width_of(5, 4, 6), 8); // 7.5 -> 8
    assert_eq!(scaled_width_of(1, 100, 4), 1);
    assert_eq!(scaled_width_of(0, 10, 4), 0);
    assert!(check_fits_after_text(3, 12, 100, 4));
    assert!(!check_fits_after_text(u32::MAX, 1, 0, 128));
    assert!(!check_fits_after_text(10, 10, u32::MAX, 1));
    // Same height: thresholding only.
    let img = LumaImage { width: 2, height: 1, luma: vec![10, 200] };
    let b = scale_to_tape(&img, 1);
    assert_eq!(b.pixels, vec![255, 0]);
}

#[test]
fn assemble_text_and_image() {
    let t = bitmap(2, 4, &[(0, 0)]);
    let b = assemble_label(Some(t), Some(luma(1, 2, 0)), 4).unwrap();
    // The 1x2 image becomes 2x4 and follows the text.
    assert_eq!((b.width, b.height), (4, 4));
    assert_eq!(b.get_pixel(0, 0), 255);
    assert_eq!(b.get_pixel(1, 0), 0);
    for y in 0..4 {
        assert_eq!(b.get_pixel(2, y), 255);
        assert_eq!(b.get_pixel(3, y), 255);
    }
    let only = assemble_label(None, Some(luma(5, 3, 255)), 3).unwrap();
    assert_eq!((only.width, only.height), (5, 3));
    let text_only = assemble_label(Some(bitmap(6, 4, &[])), None, 4).unwrap();
    assert_eq!(text_only.width, 6);
}

#[test]
fn assemble_scales_tall_image_and_refuses_empty_spec() {
    let b = assemble_label(None, Some(luma(2, 9, 0)), 3).unwrap();
    assert_eq!(b.height, 3);
    assert_eq!(b.width, 1); // 2 * 3 / 9 rounds to 1
    let short = assemble_label(None, Some(luma(2, 1, 0)), 3).unwrap();
    assert_eq!((short.width, short.height), (6, 3));
    assert!(matches!(assemble_label(None, None, 8), Err(PtlError::EmptyLabel)));
}

#[test]
fn png_mode_falls_back_to_default_tape() {
    assert_eq!(tape_px_or_default(Some(76), false), Some(76));
    assert_eq!(tape_px_or_default(Some(76), true), Some(76));
    assert_eq!(tape_px_or_default(None, true), Some(DEFAULT_TAPE_PX));
    assert_eq!(DEFAULT_TAPE_PX, 128);
    assert_eq!(tape_px_or_default(None, false), None);
}

#[test]
fn vid_pid_parsing() {
    assert_eq!(parse_vid_pid("04f9:2062"), Some((0x04f9, 0x2062)));
    assert_eq!(parse_vid_pid("04F9:2062"), Some((0x04f9, 0x2062)));
    assert_eq!(parse_vid_pid(" 04f9 : 2073 "), Some((0x04f9, 0x2073)));
    assert_eq!(parse_vid_pid("+4f9:+1"), Some((0x04f9, 1)));
    assert_eq!(parse_vid_pid("04f9"), None);
    assert_eq!(parse_vid_pid(":2062"), None);
    assert_eq!(parse_vid_pid("04f9:"), None);
    assert_eq!(parse_vid_pid("04f9:2062:1"), None);
    assert_eq!(parse_vid_pid("10000:1"), None);
    assert_eq!(parse_vid_pid("0ffff:0001"), Some((0xffff, 1)));
    assert_eq!(parse_vid_pid("-1:1"), None);
    assert_eq!(parse_vid_pid("0x4f9:1"), None);
    assert_eq!(parse_vid_pid("+:1"), None);
}

#[test]
fn trim_removes_unicode_whitespace() {
    assert_eq!(trim_str("  a b \t\n"), "a b");
    assert_eq!(trim_str("\u{3000}x\u{a0}"), "x");
    assert_eq!(trim_str("   "), "");
}

#[test]
fn image_names_by_extension() {
    assert!(looks_like_image("logo.png"));
    assert!(looks_like_image("LOGO.PNG"));
    assert!(looks_like_image("photo.Jpeg"));
    assert!(looks_like_image("a.jpg"));
    assert!(!looks_like_image("a.gif"));
    assert!(!looks_like_image("png"));
    assert!(!looks_like_image("Hello World"));
}

#[test]
fn font_families() {
    assert_eq!(font_family_for("sans-serif"), FontFamily::SansSerif);
    assert_eq!(font_family_for("Sans"), FontFamily::SansSerif);
    assert_eq!(font_family_for("SERIF"), FontFamily::Serif);
    assert_eq!(font_family_for("mono"), FontFamily::Monospace);
    assert_eq!(font_family_for("Monospace"), FontFamily::Monospace);
    assert_eq!(font_family_for("DejaVu Sans"), FontFamily::Named);
    assert_eq!(font_family_for("/usr/share/fonts/sans"), FontFamily::Named);
    assert_eq!(font_family_for("serif.ttf"), FontFamily::Named);
    assert_eq!(font_family_for("x.otf"), FontFamily::Named);
}

#[test]
fn positional_args_single_label() {
    let specs = parse_positional_args(&strings(&["Hello World"]));
    assert_eq!(specs.len(), 1);
    assert_eq!(specs[0].lines, strings(&["Hello World"]));
    assert!(specs[0].image.is_none());
    let specs = parse_positional_args(&strings(&["Line 1", "Line 2", "Line 3"]));
    assert_eq!(specs.len(), 1);
    assert_eq!(specs[0].lines, strings(&["Line 1", "Line 2", "Line 3"]));
}

#[test]
fn positional_args_split_on_separator() {
    let specs = parse_positional_args(&strings(&["Label A", "--", "Label B", "--", "Label C"]));
    assert_eq!(specs.len(), 3);
    assert_eq!(specs[0].lines, strings(&["Label A"]));
    assert_eq!(specs[1].lines, strings(&["Label B"]));
    assert_eq!(specs[2].lines, strings(&["Label C"]));
    // Empty groups are skipped.
    let specs = parse_positional_args(&strings(&["--", "A", "--", "--", "B", "--"]));
    assert_eq!(specs.len(), 2);
    assert!(parse_positional_args(&strings(&["--"])).is_empty());
    assert!(parse_positional_args(&[]).is_empty());
}

#[test]
fn positional_args_classify_images() {
    let specs = parse_positional_args(&strings(&["logo.png"]));
    assert_eq!(specs.len(), 1);
    assert!(specs[0].lines.is_empty());
    assert_eq!(specs[0].image.as_deref(), Some("logo.png"));
    let specs = parse_positional_args(&strings(&["a.png", "Text", "b.JPG"]));
    assert_eq!(specs[0].lines, strings(&["Text"]));
    assert_eq!(specs[0].image.as_deref(), Some("b.JPG"));
}

#[test]
fn json_line_filtering() {
    assert_eq!(json_line_content("  [\"a\"]  ").as_deref(), Some("[\"a\"]"));
    assert_eq!(json_line_content("   "), None);
    assert_eq!(json_line_content(""), None);
    assert_eq!(json_line_content("  // comment"), None);
    assert_eq!(json_line_content("/x").as_deref(), Some("/x"));
}

#[test]
fn json_shapes_into_specs() {
    let s = JsonLine::TextArray(strings(&["line1", "line2"])).into_spec();
    assert_eq!(s.lines, strings(&["line1", "line2"]));
    assert!(s.image.is_none());
    let s = JsonLine::Object(JsonLabelObject {
        lines: Some(strings(&["L1"])),
        image: Some("icon.png".to_string()),
        kind: None,
        path: None,
    })
    .into_spec();
    assert_eq!(s.lines, strings(&["L1"]));
    assert_eq!(s.image.as_deref(), Some("icon.png"));
    let s = JsonLine::Object(JsonLabelObject {
        lines: None,
        image: Some("ignored.png".to_string()),
        kind: Some("image".to_string()),
        path: Some("path.png".to_string()),
    })
    .into_spec();
    assert!(s.lines.is_empty());
    assert_eq!(s.image.as_deref(), Some("path.png"));
    let s = JsonLine::Object(JsonLabelObject { lines: None, image: None, kind: Some("text".to_string()), path: Some("p.png".to_string()) }).into_spec();
    assert!(s.is_empty());
}

#[test]
fn label_spec_emptiness() {
    let mut s = LabelSpec::default();
    assert!(s.is_empty());
    s.image = Some("x.png".to_string());
    assert!(!s.is_empty());
    let t = LabelSpec { lines: strings(&["a"]), image: None };
    assert!(!t.is_empty());
}
