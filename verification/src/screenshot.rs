//! The screenshot side of an import: decoding the image, reading the star
//! rating off the colour of an item name, and turning the cells of the
//! history table into records.
use vstd::prelude::*;
use crate::date::{date_normalizable, normalize_date, normalized_date};
use crate::names::{fuzzy_match_name, fuzzy_name, known_rating, known_star_rating};
use crate::records::GachaImportResult;
use crate::text::{chars_of, has_substr, str_contains, str_eq, string_of, trim, trimmed};

verus! {

// ---------------------------------------------------------------------------
// Pixels
// ---------------------------------------------------------------------------

/// A decoded image: `width * height` pixels, row by row, three bytes (red,
/// green, blue) each.
#[derive(Debug, Clone)]
pub struct RgbPixels {
    pub width: u32,
    pub height: u32,
    pub data: Vec<u8>,
}

/// The buffer holds every pixel.
pub open spec fn pixels_wf(img: RgbPixels) -> bool {
    img.data.len() >= img.width * img.height * 3
}

/// What the `image` crate decodes from the bytes of a file: width, height
/// and RGB bytes, or the text of its error.
pub uninterp spec fn decoded_rgb(bytes: Seq<u8>) -> Result<(u32, u32, Seq<u8>), Seq<char>>;

/// The model of a decoding result.
pub open spec fn decode_view(r: Result<RgbPixels, String>) -> Result<(u32, u32, Seq<u8>), Seq<char>> {
    match r {
        Ok(p) => Ok((p.width, p.height, p.data@)),
        Err(e) => Err(e@),
    }
}

/// `image::load_from_memory` followed by `DynamicImage::to_rgb8`: the image
/// that the bytes hold, converted to 8-bit RGB, named by [`decoded_rgb`]
/// (with the text that the error displays when the bytes are no image). An
/// `RgbImage` of `w * h` pixels holds at least `w * h * 3` bytes.
#[verifier::external_body]
fn decode_rgb(bytes: &[u8]) -> (r: Result<RgbPixels, String>)
    ensures
        decode_view(r) == decoded_rgb(bytes@),
        r matches Ok(p) ==> pixels_wf(p),
{
    match image::load_from_memory(bytes) {
        Ok(img) => {
            let rgb = img.to_rgb8();
            let (width, height) = rgb.dimensions();
            Ok(RgbPixels { width, height, data: rgb.into_raw() })
        },
        Err(e) => Err(format!("{}", e)),
    }
}

/// Decodes a screenshot; the error names the decoder's complaint.
pub fn decode_screenshot(bytes: &[u8]) -> (r: Result<RgbPixels, String>)
    ensures
        r matches Ok(p) ==> decode_view(r) == decoded_rgb(bytes@) && pixels_wf(p),
        r matches Err(e) ==> decoded_rgb(bytes@) matches Err(why) && e@ == "Image decode failed: "@
            + why,
{
    match decode_rgb(bytes) {
        Ok(p) => Ok(p),
        Err(why) => {
            let mut msg = chars_of("Image decode failed: ");
            let w = chars_of(why.as_str());
            let mut i: usize = 0;
            let ghost head = msg@;
            while i < w.len()
                invariant
                    i <= w.len(),
                    msg@ == head + w@.take(i as int),
                decreases w.len() - i,
            {
                msg.push(w[i]);
                i = i + 1;
                assert(w@.take(i as int) == w@.take(i - 1).push(w@[i - 1]));
            }
            assert(w@.take(w.len() as int) == w@);
            Err(string_of(&msg))
        },
    }
}

/// Inclusive pixel bounds of a recognised word.
#[derive(Debug, Clone, Copy, PartialEq, Eq)]
pub struct TextBox {
    pub x0: u32,
    pub y0: u32,
    pub x1: u32,
    pub y1: u32,
}

/// The box ends inside the image (it may start past its end, and then holds
/// no pixel), short of where stepping six pixels on overflows a `u32`.
pub open spec fn box_fits(img: RgbPixels, b: TextBox) -> bool {
    &&& b.x1 < img.width
    &&& b.y1 < img.height
    &&& b.x1 + 6 <= u32::MAX
    &&& b.y1 + 6 <= u32::MAX
}

/// The red, green and blue bytes of pixel `(x, y)`.
pub open spec fn pixel(img: RgbPixels, x: int, y: int) -> (u8, u8, u8) {
    let i = (y * img.width + x) * 3;
    (img.data@[i], img.data@[i + 1], img.data@[i + 2])
}

/// A sampled pixel: red, green, blue, saturation.
pub type Sample = (u32, u32, u32, u32);

pub open spec fn max3(a: u32, b: u32, c: u32) -> u32 {
    let m = if a > b { a } else { b };
    if m > c { m } else { c }
}

pub open spec fn min3(a: u32, b: u32, c: u32) -> u32 {
    let m = if a < b { a } else { b };
    if m < c { m } else { c }
}

/// A pixel as a sample: its channels and its saturation (largest minus
/// smallest channel).
pub open spec fn sample_of(p: (u8, u8, u8)) -> Sample {
    let r = p.0 as u32;
    let g = p.1 as u32;
    let b = p.2 as u32;
    (r, g, b, (max3(r, g, b) - min3(r, g, b)) as u32)
}

/// Sum of the channels of a sample.
pub open spec fn brightness(s: Sample) -> int {
    s.0 + s.1 + s.2
}

/// Keeps the most saturated sample, the earliest of equally saturated ones;
/// of samples without any saturation (grey tones), the darkest. The first
/// sample is kept as it is.
pub open spec fn consider(best: Option<Sample>, p: (u8, u8, u8)) -> Option<Sample> {
    let s = sample_of(p);
    match best {
        None => Some(s),
        Some(b) => if s.3 > b.3 || (s.3 == 0 && b.3 == 0 && brightness(s) < brightness(b)) {
            Some(s)
        } else {
            Some(b)
        },
    }
}

/// Samples row `y` from column `x` to `x1`, every sixth pixel.
pub open spec fn scan_row(img: RgbPixels, best: Option<Sample>, y: int, x: int, x1: int) -> Option<
    Sample,
>
    decreases x1 + 6 - x,
{
    if x > x1 {
        best
    } else {
        scan_row(img, consider(best, pixel(img, x, y)), y, x + 6, x1)
    }
}

/// Samples rows `y` to `y1` of a box, every sixth row.
pub open spec fn scan_rows(
    img: RgbPixels,
    best: Option<Sample>,
    y: int,
    y1: int,
    x0: int,
    x1: int,
) -> Option<Sample>
    decreases y1 + 6 - y,
{
    if y > y1 {
        best
    } else {
        scan_rows(img, scan_row(img, best, y, x0, x1), y + 6, y1, x0, x1)
    }
}

/// Samples the boxes in order.
pub open spec fn scan_boxes(img: RgbPixels, best: Option<Sample>, boxes: Seq<TextBox>) -> Option<
    Sample,
>
    decreases boxes.len(),
{
    if boxes.len() == 0 {
        best
    } else {
        let b = boxes[0];
        scan_boxes(
            img,
            scan_rows(img, best, b.y0 as int, b.y1 as int, b.x0 as int, b.x1 as int),
            boxes.drop_first(),
        )
    }
}

/// The star rating that the colour of a sample shows: orange-gold five,
/// purple four, dark three; a light unsaturated sample (background) shows
/// none.
pub open spec fn rating_of_color(s: Sample) -> Option<i32> {
    let (r, g, b, sat) = s;
    if sat > 40 && r > b + 40 && r > 160 {
        Some(5)
    } else if sat > 40 && b > r && b > 120 && r > 60 {
        Some(4)
    } else if r + g + b < 300 {
        Some(3)
    } else {
        None
    }
}

/// The star rating that the colour of the item name shows, sampled every
/// six pixels over the name's word boxes; none when no pixel is sampled.
pub open spec fn name_color_rating(img: RgbPixels, boxes: Seq<TextBox>) -> Option<i32> {
    match scan_boxes(img, None, boxes) {
        Some(s) => rating_of_color(s),
        None => None,
    }
}

/// Pixel `(x, y)` is sampled in box `b`: inside it, on the grid of every
/// sixth column and row from its top left corner.
pub open spec fn sampled(b: TextBox, x: int, y: int) -> bool {
    &&& b.x0 <= x <= b.x1
    &&& b.y0 <= y <= b.y1
    &&& (x - b.x0) % 6 == 0
    &&& (y - b.y0) % 6 == 0
}

/// A sample of the light background: unsaturated and bright.
pub open spec fn light(s: Sample) -> bool {
    s.3 <= 40 && brightness(s) >= 300
}

proof fn lemma_scan_row_light(img: RgbPixels, best: Option<Sample>, y: int, x: int, x1: int)
    requires
        best matches Some(b) ==> light(b),
        forall|xx: int|
            x <= xx <= x1 && (xx - x) % 6 == 0 ==> light(#[trigger] sample_of(pixel(img, xx, y))),
    ensures
        scan_row(img, best, y, x, x1) matches Some(b) ==> light(b),
    decreases x1 + 6 - x,
{
    if x <= x1 {
        assert(light(sample_of(pixel(img, x, y))));
        assert forall|xx: int| x + 6 <= xx <= x1 && (xx - (x + 6)) % 6 == 0 implies light(
            #[trigger] sample_of(pixel(img, xx, y)),
        ) by {
            assert((xx - x) % 6 == 0);
        }
        lemma_scan_row_light(img, consider(best, pixel(img, x, y)), y, x + 6, x1);
    }
}

proof fn lemma_scan_rows_light(
    img: RgbPixels,
    best: Option<Sample>,
    y: int,
    y1: int,
    x0: int,
    x1: int,
)
    requires
        best matches Some(b) ==> light(b),
        forall|xx: int, yy: int|
            x0 <= xx <= x1 && y <= yy <= y1 && (xx - x0) % 6 == 0 && (yy - y) % 6 == 0 ==> light(
                #[trigger] sample_of(pixel(img, xx, yy)),
            ),
    ensures
        scan_rows(img, best, y, y1, x0, x1) matches Some(b) ==> light(b),
    decreases y1 + 6 - y,
{
    if y <= y1 {
        assert forall|xx: int| x0 <= xx <= x1 && (xx - x0) % 6 == 0 implies light(
            #[trigger] sample_of(pixel(img, xx, y)),
        ) by {
            assert((y - y) % 6 == 0);
        }
        lemma_scan_row_light(img, best, y, x0, x1);
        assert forall|xx: int, yy: int|
            x0 <= xx <= x1 && y + 6 <= yy <= y1 && (xx - x0) % 6 == 0 && (yy - (y + 6)) % 6
                == 0 implies light(#[trigger] sample_of(pixel(img, xx, yy))) by {
            assert((yy - y) % 6 == 0);
        }
        lemma_scan_rows_light(img, scan_row(img, best, y, x0, x1), y + 6, y1, x0, x1);
    }
}

proof fn lemma_scan_boxes_light(img: RgbPixels, best: Option<Sample>, boxes: Seq<TextBox>)
    requires
        best matches Some(b) ==> light(b),
        forall|k: int, x: int, y: int|
            0 <= k < boxes.len() && #[trigger] sampled(boxes[k], x, y) ==> light(
                sample_of(pixel(img, x, y)),
            ),
    ensures
        scan_boxes(img, best, boxes) matches Some(b) ==> light(b),
    decreases boxes.len(),
{
    if boxes.len() > 0 {
        let b = boxes[0];
        assert forall|xx: int, yy: int|
            b.x0 <= xx <= b.x1 && b.y0 <= yy <= b.y1 && (xx - b.x0) % 6 == 0 && (yy - b.y0) % 6
                == 0 implies light(#[trigger] sample_of(pixel(img, xx, yy))) by {
            assert(sampled(boxes[0], xx, yy));
        }
        lemma_scan_rows_light(img, best, b.y0 as int, b.y1 as int, b.x0 as int, b.x1 as int);
        let rest = boxes.drop_first();
        assert forall|k: int, x: int, y: int|
            0 <= k < rest.len() && #[trigger] sampled(rest[k], x, y) implies light(
                sample_of(pixel(img, x, y)),
            ) by {
            assert(rest[k] == boxes[k + 1]);
            assert(sampled(boxes[k + 1], x, y));
        }
        lemma_scan_boxes_light(
            img,
            scan_rows(img, best, b.y0 as int, b.y1 as int, b.x0 as int, b.x1 as int),
            rest,
        );
    }
}

/// Where every sampled pixel of the name's boxes is light background
/// (unsaturated and bright), the colour shows no rating; so too where no
/// pixel is sampled.
pub proof fn lemma_light_background_unrated(img: RgbPixels, boxes: Seq<TextBox>)
    requires
        forall|k: int, x: int, y: int|
            0 <= k < boxes.len() && #[trigger] sampled(boxes[k], x, y) ==> light(
                sample_of(pixel(img, x, y)),
            ),
    ensures
        name_color_rating(img, boxes) is None,
{
    lemma_scan_boxes_light(img, None, boxes);
}

proof fn lemma_pixel_index(w: int, h: int, x: int, y: int)
    by (nonlinear_arith)
    requires
        0 <= x < w,
        0 <= y < h,
    ensures
        0 <= (y * w + x) * 3,
        (y * w + x) * 3 + 2 < w * h * 3,
        y * w + x <= (h - 1) * w + (w - 1),
{
}

fn read_pixel(img: &RgbPixels, x: u32, y: u32) -> (p: (u8, u8, u8))
    requires
        pixels_wf(*img),
        x < img.width,
        y < img.height,
    ensures
        p == pixel(*img, x as int, y as int),
{
    proof {
        lemma_pixel_index(img.width as int, img.height as int, x as int, y as int);
    }
    let i = ((y as usize) * (img.width as usize) + (x as usize)) * 3;
    (img.data[i], img.data[i + 1], img.data[i + 2])
}

fn consider_exec(best: Option<Sample>, p: (u8, u8, u8)) -> (r: Option<Sample>)
    ensures
        r == consider(best, p),
{
    let r = p.0 as u32;
    let g = p.1 as u32;
    let b = p.2 as u32;
    let mx = if r > g { r } else { g };
    let mx = if mx > b { mx } else { b };
    let mn = if r < g { r } else { g };
    let mn = if mn < b { mn } else { b };
    let sat = mx - mn;
    match best {
        None => Some((r, g, b, sat)),
        Some(old) => {
            let (br, bg, bb, bsat) = old;
            if sat > bsat || (sat == 0 && bsat == 0 && (r as u64) + (g as u64) + (b as u64) < (br
                as u64) + (bg as u64) + (bb as u64)) {
                Some((r, g, b, sat))
            } else {
                Some(old)
            }
        },
    }
}

/// The star rating that the colour of an item name shows (see
/// [`name_color_rating`]); none where every sampled pixel is light
/// background.
pub fn star_rating_from_text(img: &RgbPixels, boxes: &Vec<TextBox>) -> (r: Option<i32>)
    requires
        pixels_wf(*img),
        forall|i: int| 0 <= i < boxes.len() ==> box_fits(*img, #[trigger] boxes@[i]),
    ensures
        r == name_color_rating(*img, boxes@),
        (forall|k: int, x: int, y: int|
            0 <= k < boxes.len() && #[trigger] sampled(boxes@[k], x, y) ==> light(
                sample_of(pixel(*img, x, y)),
            )) ==> r is None,
{
    proof {
        if forall|k: int, x: int, y: int|
            0 <= k < boxes.len() && #[trigger] sampled(boxes@[k], x, y) ==> light(
                sample_of(pixel(*img, x, y)),
            ) {
            lemma_light_background_unrated(*img, boxes@);
        }
    }
    let ghost target = scan_boxes(*img, None, boxes@);
    let mut best: Option<Sample> = None;
    let mut k: usize = 0;
    assert(boxes@.skip(0) == boxes@);
    while k < boxes.len()
        invariant
            k <= boxes.len(),
            pixels_wf(*img),
            forall|i: int| 0 <= i < boxes.len() ==> box_fits(*img, #[trigger] boxes@[i]),
            scan_boxes(*img, best, boxes@.skip(k as int)) == target,
        decreases boxes.len() - k,
    {
        let b = boxes[k];
        assert(box_fits(*img, boxes@[k as int]));
        assert(boxes@.skip(k as int)[0] == b);
        assert(boxes@.skip(k as int).drop_first() == boxes@.skip(k + 1));
        let ghost start = best;
        let ghost box_end = scan_rows(*img, start, b.y0 as int, b.y1 as int, b.x0 as int, b.x1 as int);
        let mut yy: u64 = b.y0 as u64;
        while yy <= b.y1 as u64
            invariant
                pixels_wf(*img),
                box_fits(*img, b),
                scan_rows(*img, best, yy as int, b.y1 as int, b.x0 as int, b.x1 as int) == box_end,
                yy <= u32::MAX + 6,
            decreases (b.y1 as int) + 6 - (yy as int),
        {
            let ghost row_start = best;
            let ghost row_end = scan_row(*img, row_start, yy as int, b.x0 as int, b.x1 as int);
            let mut xx: u64 = b.x0 as u64;
            while xx <= b.x1 as u64
                invariant
                    pixels_wf(*img),
                    box_fits(*img, b),
                    yy <= b.y1,
                    scan_row(*img, best, yy as int, xx as int, b.x1 as int) == row_end,
                    xx <= u32::MAX + 6,
                decreases (b.x1 as int) + 6 - (xx as int),
            {
                let p = read_pixel(img, xx as u32, yy as u32);
                best = consider_exec(best, p);
                xx = xx + 6;
            }
            yy = yy + 6;
        }
        k = k + 1;
    }
    match best {
        None => None,
        Some((r, g, b, sat)) => {
            let (r, g, b) = (r as u64, g as u64, b as u64);
            if sat > 40 && r > b + 40 && r > 160 {
                Some(5)
            } else if sat > 40 && b > r && b > 120 && r > 60 {
                Some(4)
            } else if r + g + b < 300 {
                Some(3)
            } else {
                None
            }
        },
    }
}

// ---------------------------------------------------------------------------
// Table rows
// ---------------------------------------------------------------------------

/// The text of a table row marks the header: it names the object type.
pub fn starts_table(row_text: &str) -> (r: bool)
    ensures
        r == has_substr(row_text@, "对象类型"@),
{
    str_contains(row_text, "对象类型")
}

/// The text of a table row is the full header: it names the object type
/// and the warp time.
pub fn is_header_row(row_text: &str) -> (r: bool)
    ensures
        r == (has_substr(row_text@, "对象类型"@) && has_substr(row_text@, "跃迁时间"@)),
{
    str_contains(row_text, "对象类型") && str_contains(row_text, "跃迁时间")
}

/// One data row of the history table as recognised: the text of each of the
/// four columns (object type, item name, warp type, warp time) and the boxes
/// of the words of the item name.
#[derive(Debug, Clone)]
pub struct ScreenRow {
    pub object_type: String,
    pub item_name: String,
    pub banner_type: String,
    pub record_date: String,
    pub name_boxes: Vec<TextBox>,
}

/// A record to store, read off one row.
#[derive(Debug, Clone, PartialEq, Eq)]
pub struct ImportRow {
    pub item_name: String,
    pub item_type: String,
    pub star_rating: i32,
    pub record_date: String,
    pub is_won: bool,
    pub banner_type: String,
}

/// The model of a record to store.
pub struct ImportModel {
    pub item_name: Seq<char>,
    pub item_type: Seq<char>,
    pub star_rating: i32,
    pub record_date: Seq<char>,
    pub is_won: bool,
    pub banner_type: Seq<char>,
}

impl View for ImportRow {
    type V = ImportModel;

    open spec fn view(&self) -> ImportModel {
        ImportModel {
            item_name: self.item_name@,
            item_type: self.item_type@,
            star_rating: self.star_rating,
            record_date: self.record_date@,
            is_won: self.is_won,
            banner_type: self.banner_type@,
        }
    }
}

/// The rows of a screenshot that are read: the first five.
pub open spec fn rows_read(rows: Seq<ScreenRow>) -> Seq<ScreenRow> {
    if rows.len() <= 5 {
        rows
    } else {
        rows.take(5)
    }
}

/// Every row that is read has word boxes inside the image and a date that
/// can be normalised.
pub open spec fn rows_readable(img: RgbPixels, rows: Seq<ScreenRow>) -> bool {
    forall|i: int|
        0 <= i < rows_read(rows).len() ==> {
            &&& forall|j: int|
                0 <= j < (#[trigger] rows_read(rows)[i]).name_boxes.len() ==> box_fits(
                    img,
                    #[trigger] rows_read(rows)[i].name_boxes@[j],
                )
            &&& normalized_date(trim(rows_read(rows)[i].record_date@)) is Some
        }
}

/// The star rating of a row: the colour of the name, else the rating known
/// for the name, else four for a character and three for anything else.
pub open spec fn row_rating(img: RgbPixels, row: ScreenRow) -> i32 {
    let name = fuzzy_name(trim(row.item_name@));
    match name_color_rating(img, row.name_boxes@) {
        Some(s) => s,
        None => match known_rating(name) {
            Some(s) => s,
            None => if trim(row.object_type@) == "角色"@ {
                4
            } else {
                3
            },
        },
    }
}

/// The record read off a row, if it has both an item name and a date.
pub open spec fn row_record(img: RgbPixels, row: ScreenRow) -> Option<ImportModel> {
    let name = fuzzy_name(trim(row.item_name@));
    let date = normalized_date(trim(row.record_date@)).unwrap();
    let star = row_rating(img, row);
    if name.len() > 0 && date.len() > 0 {
        Some(
            ImportModel {
                item_name: name,
                item_type: trim(row.object_type@),
                star_rating: star,
                record_date: date,
                is_won: true,
                banner_type: trim(row.banner_type@),
            },
        )
    } else {
        None
    }
}

/// The records read off rows, in order.
pub open spec fn records_of_rows(img: RgbPixels, rows: Seq<ScreenRow>) -> Seq<ImportModel>
    decreases rows.len(),
{
    if rows.len() == 0 {
        Seq::empty()
    } else {
        let before = records_of_rows(img, rows.drop_last());
        match row_record(img, rows.last()) {
            Some(m) => before.push(m),
            None => before,
        }
    }
}

/// A record as the import stores it: a name and a date, a rating of three to
/// five stars, and won (a lost 50/50 is marked later, by hand).
pub open spec fn record_well_formed(m: ImportModel) -> bool {
    &&& m.item_name.len() > 0
    &&& m.record_date.len() > 0
    &&& 3 <= m.star_rating <= 5
    &&& m.is_won
}

proof fn lemma_row_rating_range(img: RgbPixels, row: ScreenRow)
    ensures
        3 <= row_rating(img, row) <= 5,
{
}

/// At most one record per row, each well formed.
pub proof fn lemma_records_of_rows(img: RgbPixels, rows: Seq<ScreenRow>)
    ensures
        records_of_rows(img, rows).len() <= rows.len(),
        forall|i: int|
            0 <= i < records_of_rows(img, rows).len() ==> record_well_formed(
                #[trigger] records_of_rows(img, rows)[i],
            ),
    decreases rows.len(),
{
    if rows.len() > 0 {
        lemma_records_of_rows(img, rows.drop_last());
        lemma_row_rating_range(img, rows.last());
    }
}

/// The star rating of a record read off `row` is the colour of the row's
/// name where the colour decides; else the known rating of the record's
/// (corrected) item name; else four for a character and three otherwise.
pub open spec fn rating_fits(img: RgbPixels, row: ScreenRow, m: ImportModel) -> bool {
    m.star_rating == match name_color_rating(img, row.name_boxes@) {
        Some(s) => s,
        None => match known_rating(m.item_name) {
            Some(s) => s,
            None => if m.item_type == "角色"@ {
                4
            } else {
                3
            },
        },
    }
}

/// The record read off `row` carries the row's trimmed object type, its
/// item name corrected against the known names, and the rating of
/// [`rating_fits`].
pub open spec fn read_off(img: RgbPixels, row: ScreenRow, m: ImportModel) -> bool {
    &&& m.item_name == fuzzy_name(trim(row.item_name@))
    &&& m.item_type == trim(row.object_type@)
    &&& rating_fits(img, row, m)
}

/// Each record imported from the rows is read off one of them: its item
/// name corrected, its rating from the name's colour, else from the known
/// rating of the corrected name, else from the object type.
pub proof fn lemma_imported_ratings(img: RgbPixels, rows: Seq<ScreenRow>)
    ensures
        forall|i: int|
            0 <= i < records_of_rows(img, rows).len() ==> exists|k: int|
                0 <= k < rows.len() && read_off(
                    img,
                    #[trigger] rows[k],
                    #[trigger] records_of_rows(img, rows)[i],
                ),
    decreases rows.len(),
{
    if rows.len() > 0 {
        let d = rows.drop_last();
        lemma_imported_ratings(img, d);
        let before = records_of_rows(img, d);
        let all = records_of_rows(img, rows);
        assert forall|i: int| 0 <= i < all.len() implies exists|k: int|
            0 <= k < rows.len() && read_off(img, #[trigger] rows[k], #[trigger] all[i]) by {
            if i < before.len() {
                assert(all[i] == before[i]);
                let k = choose|k: int| 0 <= k < d.len() && read_off(img, #[trigger] d[k], before[i]);
                assert(rows[k] == d[k]);
            } else {
                let last = rows.last();
                assert(rows[rows.len() - 1] == last);
                assert(read_off(img, rows[rows.len() - 1], all[i]));
            }
        }
    }
}

/// Whether the rows can be read: the dates of the rows read can be
/// normalised (word boxes come from the image and fit it).
pub fn rows_dates_normalizable(rows: &Vec<ScreenRow>) -> (r: bool)
    ensures
        r == forall|i: int|
            0 <= i < rows_read(rows@).len() ==> normalized_date(
                trim(#[trigger] rows_read(rows@)[i].record_date@),
            ) is Some,
{
    let n = if rows.len() <= 5 {
        rows.len()
    } else {
        5
    };
    let mut i: usize = 0;
    while i < n
        invariant
            i <= n,
            n == rows_read(rows@).len(),
            forall|j: int|
                0 <= j < i ==> normalized_date(trim(#[trigger] rows_read(rows@)[j].record_date@))
                    is Some,
        decreases n - i,
    {
        let d = string_of(&trimmed(&chars_of(rows[i].record_date.as_str())));
        assert(rows_read(rows@)[i as int] == rows@[i as int]);
        if !date_normalizable(d.as_str()) {
            return false;
        }
        i = i + 1;
    }
    true
}

/// Reads the records off the rows of a history table: the first five rows,
/// each with its cells trimmed, the item name matched against the known
/// names, the date normalised, and the star rating from the name's colour or
/// else from the name; rows without name or date are dropped. Every record
/// is stored as won; a lost 50/50 is marked later, by hand.
pub fn plan_screenshot_import(img: &RgbPixels, rows: &Vec<ScreenRow>) -> (r: Vec<ImportRow>)
    requires
        pixels_wf(*img),
        rows_readable(*img, rows@),
    ensures
        r@.map_values(|x: ImportRow| x@) == records_of_rows(*img, rows_read(rows@)),
        r.len() <= 5,
        forall|i: int| 0 <= i < r.len() ==> record_well_formed(#[trigger] r@[i]@),
{
    proof {
        lemma_records_of_rows(*img, rows_read(rows@));
    }
    let n = if rows.len() <= 5 {
        rows.len()
    } else {
        5
    };
    let ghost read = rows_read(rows@);
    assert(read.len() == n);
    let mut out: Vec<ImportRow> = Vec::new();
    let mut i: usize = 0;
    while i < n
        invariant
            i <= n,
            n <= rows.len(),
            read == rows_read(rows@),
            read.len() == n,
            pixels_wf(*img),
            rows_readable(*img, rows@),
            out@.map_values(|x: ImportRow| x@) == records_of_rows(*img, read.take(i as int)),
        decreases n - i,
    {
        let row = &rows[i];
        assert(read[i as int] == rows@[i as int]);
        assert(read.take(i + 1).drop_last() == read.take(i as int));
        assert(read.take(i + 1).last() == *row);
        let obj_type = string_of(&trimmed(&chars_of(row.object_type.as_str())));
        let raw_name = string_of(&trimmed(&chars_of(row.item_name.as_str())));
        let banner_type = string_of(&trimmed(&chars_of(row.banner_type.as_str())));
        let raw_date = string_of(&trimmed(&chars_of(row.record_date.as_str())));
        let item_name = fuzzy_match_name(raw_name.as_str());
        let record_date = normalize_date(raw_date.as_str());
        assert forall|j: int| 0 <= j < row.name_boxes.len() implies box_fits(
            *img,
            #[trigger] row.name_boxes@[j],
        ) by {
            assert(rows_read(rows@)[i as int].name_boxes@[j] == row.name_boxes@[j]);
        }
        let color = star_rating_from_text(img, &row.name_boxes);
        let star_rating = match color {
            Some(s) => s,
            None => match known_star_rating(item_name.as_str()) {
                Some(s) => s,
                None => if str_eq(obj_type.as_str(), "角色") {
                    4
                } else {
                    3
                },
            },
        };
        let ghost before = out@.map_values(|x: ImportRow| x@);
        assert(star_rating == row_rating(*img, *row));
        if !item_name.as_str().is_empty() && !record_date.as_str().is_empty() {
            let rec = ImportRow {
                item_name,
                item_type: obj_type,
                star_rating,
                record_date,
                is_won: true,
                banner_type,
            };
            assert(row_record(*img, *row) == Some(rec@));
            out.push(rec);
            assert(out@.map_values(|x: ImportRow| x@) =~= before.push(rec@));
        } else {
            assert(row_record(*img, *row) is None);
        }
        i = i + 1;
    }
    assert(read.take(n as int) == read);
    assert forall|i: int| 0 <= i < out.len() implies record_well_formed(#[trigger] out@[i]@) by {
        assert(out@.map_values(|x: ImportRow| x@)[i] == out@[i]@);
    }
    out
}

/// What became of one screenshot of a batch.
pub enum ScreenshotOutcome {
    /// The file could not be read.
    Unreadable,
    /// The screenshot could not be processed.
    Failed,
    /// The screenshot was processed.
    Processed(GachaImportResult),
}

/// The totals of a batch after one more screenshot: a processed one adds its
/// counts; a file that could not be read or processed counts as skipped.
pub fn tally_screenshot(total: GachaImportResult, outcome: &ScreenshotOutcome) -> (r:
    GachaImportResult)
    requires
        match outcome {
            ScreenshotOutcome::Processed(x) => total.imported + x.imported <= usize::MAX
                && total.duplicates + x.duplicates <= usize::MAX,
            _ => total.duplicates + 1 <= usize::MAX,
        },
    ensures
        match outcome {
            ScreenshotOutcome::Processed(x) => r.imported == total.imported + x.imported
                && r.duplicates == total.duplicates + x.duplicates,
            _ => r.imported == total.imported && r.duplicates == total.duplicates + 1,
        },
{
    match outcome {
        ScreenshotOutcome::Processed(x) => GachaImportResult {
            imported: total.imported + x.imported,
            duplicates: total.duplicates + x.duplicates,
        },
        _ => GachaImportResult { imported: total.imported, duplicates: total.duplicates + 1 },
    }
}

} // verus!
