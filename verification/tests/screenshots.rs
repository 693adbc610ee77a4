use astro_origin::screenshot::{
    decode_screenshot, is_header_row, plan_screenshot_import, rows_dates_normalizable,
    star_rating_from_text, starts_table, RgbPixels, ScreenRow, TextBox,
};

fn solid(width: u32, height: u32, rgb: [u8; 3]) -> RgbPixels {
    let mut data = Vec::new();
    for _ in 0..(width * height) {
        data.extend_from_slice(&rgb);
    }
    RgbPixels { width, height, data }
}

fn whole(img: &RgbPixels) -> Vec<TextBox> {
    vec![TextBox { x0: 0, y0: 0, x1: img.width - 1, y1: img.height - 1 }]
}

#[test]
fn colours_give_ratings() {
    let gold = solid(20, 10, [220, 160, 60]);
    assert_eq!(star_rating_from_text(&gold, &whole(&gold)), Some(5));
    let purple = solid(20, 10, [150, 90, 200]);
    assert_eq!(star_rating_from_text(&purple, &whole(&purple)), Some(4));
    let black = solid(20, 10, [30, 30, 30]);
    assert_eq!(star_rating_from_text(&black, &whole(&black)), Some(3));
    // A white background alone is no black text.
    let white = solid(20, 10, [250, 250, 250]);
    assert_eq!(star_rating_from_text(&white, &whole(&white)), None);
    let grey = solid(20, 10, [90, 90, 90]);
    assert_eq!(star_rating_from_text(&grey, &whole(&grey)), Some(3));
    // A faintly tinted light background decides nothing.
    let cream = solid(20, 10, [250, 240, 230]);
    assert_eq!(star_rating_from_text(&cream, &whole(&cream)), None);
    assert_eq!(star_rating_from_text(&cream, &Vec::new()), None);
}

#[test]
fn most_saturated_sample_decides() {
    // Cream image with one gold pixel on the sampling grid (x = 6, y = 0).
    let mut img = solid(20, 10, [250, 240, 230]);
    let i = (0 * 20 + 6) * 3;
    img.data[i..i + 3].copy_from_slice(&[220, 160, 60]);
    assert_eq!(star_rating_from_text(&img, &whole(&img)), Some(5));
    // Off the grid (x = 7) it is not sampled.
    let mut off = solid(20, 10, [250, 240, 230]);
    let j = (0 * 20 + 7) * 3;
    off.data[j..j + 3].copy_from_slice(&[220, 160, 60]);
    assert_eq!(star_rating_from_text(&off, &whole(&off)), None);
    // A box that starts past its end holds no pixel, and shows nothing.
    let empty_box = vec![TextBox { x0: 15, y0: 0, x1: 3, y1: 9 }];
    assert_eq!(star_rating_from_text(&img, &empty_box), None);
}

#[test]
fn black_text_on_white_background() {
    // White image with one black pixel on the sampling grid (x = 12, y = 6).
    let mut img = solid(20, 10, [255, 255, 255]);
    let i = (6 * 20 + 12) * 3;
    img.data[i..i + 3].copy_from_slice(&[20, 20, 20]);
    assert_eq!(star_rating_from_text(&img, &whole(&img)), Some(3));
    // Off the grid (x = 13) only the background is sampled.
    let mut off = solid(20, 10, [255, 255, 255]);
    let j = (6 * 20 + 13) * 3;
    off.data[j..j + 3].copy_from_slice(&[20, 20, 20]);
    assert_eq!(star_rating_from_text(&off, &whole(&off)), None);
}

#[test]
fn decodes_png() {
    let mut png = Vec::new();
    let src = image::RgbImage::from_fn(4, 3, |x, y| image::Rgb([x as u8 * 10, y as u8 * 20, 7]));
    image::DynamicImage::ImageRgb8(src)
        .write_to(&mut std::io::Cursor::new(&mut png), image::ImageFormat::Png)
        .unwrap();
    let img = decode_screenshot(&png).unwrap();
    assert_eq!((img.width, img.height), (4, 3));
    assert_eq!(&img.data[(2 * 4 + 3) * 3..(2 * 4 + 3) * 3 + 3], &[30, 40, 7]);
    let err = decode_screenshot(b"not an image").unwrap_err();
    assert!(err.starts_with("Image decode failed: "), "{}", err);
}

#[test]
fn header_detection() {
    assert!(is_header_row("对象类型对象名称跃迁类型跃迁时间"));
    assert!(!is_header_row("对象类型对象名称"));
    assert!(starts_table("对象类型对象名称"));
    assert!(!starts_table("光锥嘉果"));
}

fn row(kind: &str, name: &str, banner: &str, date: &str, boxes: Vec<TextBox>) -> ScreenRow {
    ScreenRow {
        object_type: kind.to_string(),
        item_name: name.to_string(),
        banner_type: banner.to_string(),
        record_date: date.to_string(),
        name_boxes: boxes,
    }
}

#[test]
fn rows_become_records() {
    let img = solid(20, 10, [250, 250, 250]);
    let gold = solid(20, 10, [220, 160, 60]);
    let rows = vec![
        row(" 光锥 ", "嘉果", "角色活动跃迁", "2026·05·2723：05：36", vec![]),
        row("角色", "素 裳", "角色活动跃迁", "2026·05·24 10:28:42", vec![]),
        row("角色", "未知", "角色活动跃迁", "2026-05-24 10:28:41", vec![]),
        row("光锥", "", "角色活动跃迁", "2026-05-24 10:28:40", vec![]),
        row("光锥", "新光锥", "角色活动跃迁", "2026-05-24 10:28:39", vec![]),
        row("光锥", "轮契", "角色活动跃迁", "2026-05-24 10:28:38", vec![]),
    ];
    assert!(rows_dates_normalizable(&rows));
    let out = plan_screenshot_import(&img, &rows);
    // The sixth row is not read; the fourth has no name.
    assert_eq!(out.len(), 4);
    assert_eq!(out[0].item_name, "嘉果");
    assert_eq!(out[0].item_type, "光锥");
    assert_eq!(out[0].record_date, "2026-05-27 23:05:36");
    assert_eq!((out[0].star_rating, out[0].is_won), (3, true));
    assert_eq!(out[1].item_name, "素裳");
    assert_eq!(out[1].star_rating, 4);
    assert_eq!(out[2].star_rating, 4); // unknown character
    assert_eq!(out[3].star_rating, 3); // unknown light cone
    for r in &out {
        assert!((3..=5).contains(&r.star_rating));
        assert!(r.is_won);
    }
    // The colour of the name decides over the name.
    let colored = vec![row("光锥", "嘉果", "常驻跃迁", "2026-05-24 10:28:49", whole(&gold))];
    let out = plan_screenshot_import(&gold, &colored);
    // Five-star records are stored as won too.
    assert_eq!((out[0].star_rating, out[0].is_won), (5, true));
    assert_eq!(out[0].banner_type, "常驻跃迁");
}

#[test]
fn unreadable_dates_are_reported() {
    let rows = vec![row("光锥", "嘉果", "x", "ab日:", vec![])];
    assert!(!rows_dates_normalizable(&rows));
}

#[test]
fn equally_saturated_samples_keep_the_first() {
    // Two samples of saturation 50 on the grid: the first, light one stays.
    let mut img = solid(7, 1, [200, 150, 170]);
    img.data[18..21].copy_from_slice(&[100, 50, 60]);
    let boxes = vec![TextBox { x0: 0, y0: 0, x1: 6, y1: 0 }];
    assert_eq!(star_rating_from_text(&img, &boxes), None);
}
