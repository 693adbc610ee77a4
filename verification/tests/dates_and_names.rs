use astro_origin::date::{date_normalizable, normalize_date};
use astro_origin::names::{fuzzy_match_name, known_star_rating, starrail_name_list};

#[test]
fn test_normalize_date() {
    assert_eq!(normalize_date("2026·05·2723：05：36"), "2026-05-27 23:05:36");
    assert_eq!(normalize_date("2026-05-27 23:05:36"), "2026-05-27 23:05:36");
    assert_eq!(normalize_date("2026-05-2723:05:36"), "2026-05-27 23:05:36");
    // OCR 误识别
    assert_eq!(normalize_date("2026·05·2厶23：05：36"), "2026-05-24 23:05:36");
    // PP-OCRv4 [UNK] 标记
    assert_eq!(normalize_date("2026-05-27[UNK]23:05:36"), "2026-05-27 23:05:36");
}

#[test]
fn test_fuzzy_match() {
    let result = fuzzy_match_name("轮契");
    assert!(!result.is_empty());
}

#[test]
fn normalize_full_shape_replaces_separator() {
    assert_eq!(normalize_date("2026-05-27X23:05:36"), "2026-05-27 23:05:36");
    assert_eq!(normalize_date("2026-05-27T23:05:36"), "2026-05-27 23:05:36");
}

#[test]
fn normalize_without_time_keeps_compact_text() {
    assert_eq!(normalize_date("2026 05 27"), "20260527");
    assert_eq!(normalize_date("12:30"), "12:30");
    assert_eq!(normalize_date(""), "");
}

#[test]
fn normalize_cut_inside_character_is_refused() {
    // The first ':' sits at byte 5; cutting at byte 3 falls inside '日'.
    assert!(!date_normalizable("ab日:"));
    assert!(date_normalizable("2026·05·2723：05：36"));
    assert!(date_normalizable("日期2026-05-2723:05:36"));
}

#[test]
fn normalized_dates_hold_no_confusions() {
    for s in ["2026·05·2厶23：05：36", "厶·：", "a·b：c厶d"] {
        if date_normalizable(s) {
            let d = normalize_date(s);
            assert!(!d.contains('·') && !d.contains('：') && !d.contains('厶'), "{}", d);
        }
    }
}

#[test]
fn fuzzy_match_corrects_to_known_names() {
    assert_eq!(fuzzy_match_name("轮契"), "轮契");
    assert_eq!(fuzzy_match_name("轮 契"), "轮契");
    assert_eq!(fuzzy_match_name("三月七·角色"), "三月七");
    // Several names contain the key; the first longest in bytes wins.
    assert_eq!(fuzzy_match_name("卡"), "卡芙卡");
    assert_eq!(fuzzy_match_name("unknown"), "unknown");
    assert_eq!(fuzzy_match_name(""), "");
    assert_eq!(fuzzy_match_name(" ·- "), " ·- ");
}

#[test]
fn corrected_names_have_known_ratings() {
    for ocr in ["轮 契", "三月七·角色", "卡", "希儿x", "银"] {
        let name = fuzzy_match_name(ocr);
        if name != ocr {
            assert!(known_star_rating(&name).is_some(), "{}", name);
        }
    }
    for name in starrail_name_list() {
        assert!(known_star_rating(name).is_some());
        assert_eq!(fuzzy_match_name(name), name);
    }
}

#[test]
fn known_ratings() {
    assert_eq!(known_star_rating("刃"), Some(5));
    assert_eq!(known_star_rating("瓦尔特"), Some(5));
    assert_eq!(known_star_rating("素裳"), Some(4));
    assert_eq!(known_star_rating("桂乃芬"), Some(4));
    assert_eq!(known_star_rating("轮契"), Some(3));
    assert_eq!(known_star_rating("睿见"), Some(3));
    assert_eq!(known_star_rating("七七"), None);
    assert_eq!(starrail_name_list().len(), 40);
}

#[test]
fn canonical_dates_are_kept() {
    for s in ["2026-05-27 23:05:36", "1999-12-31 00:00:00", "0000-00-00 99:99:99"] {
        assert!(date_normalizable(s));
        assert_eq!(normalize_date(s), s);
    }
}

#[test]
fn correcting_twice_changes_nothing() {
    for ocr in ["轮 契", "三月七·角色", "卡", "希儿x", "银", "unknown", ""] {
        let once = fuzzy_match_name(ocr);
        assert_eq!(fuzzy_match_name(&once), once);
    }
}
