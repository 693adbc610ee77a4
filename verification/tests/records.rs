use astro_origin::query::{plan_records_query, SqlValue};
use astro_origin::records::{GachaImportResult, GachaRecord};
use astro_origin::screenshot::{tally_screenshot, ScreenshotOutcome};
use astro_origin::stats::compute_pull_counts;

fn rec(id: i64, game: &str, star: i32, won: bool, banner: &str) -> GachaRecord {
    GachaRecord {
        id,
        game_kind: game.to_string(),
        item_name: format!("item{}", id),
        item_type: "光锥".to_string(),
        star_rating: star,
        record_date: format!("2026-05-{:02} 10:00:00", id),
        is_won: won,
        banner_type: banner.to_string(),
    }
}

fn sample() -> Vec<GachaRecord> {
    vec![
        rec(1, "starrail", 3, true, "角色活动跃迁"),
        rec(2, "starrail", 5, false, "角色活动跃迁"),
        rec(3, "starrail", 4, true, "常驻跃迁"),
        rec(4, "genshin", 5, true, "角色活动祈愿"),
        rec(5, "starrail", 3, true, "角色活动跃迁"),
        rec(6, "starrail", 5, true, "光锥活动跃迁"),
        rec(7, "starrail", 3, true, "常驻跃迁"),
        rec(8, "starrail", 3, true, "角色活动跃迁"),
    ]
}

#[test]
fn overall_counts() {
    let c = compute_pull_counts(&sample(), "starrail");
    assert_eq!(c.total_pulls, 7);
    assert_eq!(c.five_star_count, 2);
    assert_eq!(c.lost_count, 1);
    // Latest five-star is id 6; ids 7 and 8 follow it.
    assert_eq!(c.current_pity, 2);
    assert!(c.lost_count <= c.five_star_count && c.five_star_count <= c.total_pulls);
}

#[test]
fn banner_counts_in_text_order() {
    let c = compute_pull_counts(&sample(), "starrail");
    let names: Vec<&str> = c.by_banner.iter().map(|b| b.banner_type.as_str()).collect();
    let mut sorted = names.clone();
    sorted.sort();
    assert_eq!(names, sorted);
    assert_eq!(names, vec!["光锥活动跃迁", "常驻跃迁", "角色活动跃迁"]);
    let role = &c.by_banner[2];
    assert_eq!((role.total_pulls, role.five_star_count, role.lost_count, role.current_pity), (4, 1, 1, 2));
    let standard = &c.by_banner[1];
    assert_eq!((standard.total_pulls, standard.five_star_count, standard.current_pity), (2, 0, 2));
    let cone = &c.by_banner[0];
    assert_eq!((cone.total_pulls, cone.five_star_count, cone.current_pity), (1, 1, 0));
    let sum: i64 = c.by_banner.iter().map(|b| b.total_pulls).sum();
    assert_eq!(sum, c.total_pulls);
    let five: i64 = c.by_banner.iter().map(|b| b.five_star_count).sum();
    assert_eq!(five, c.five_star_count);
}

#[test]
fn empty_and_other_game_counts() {
    let c = compute_pull_counts(&Vec::new(), "starrail");
    assert_eq!((c.total_pulls, c.five_star_count, c.lost_count, c.current_pity), (0, 0, 0, 0));
    assert!(c.by_banner.is_empty());
    let g = compute_pull_counts(&sample(), "genshin");
    assert_eq!((g.total_pulls, g.five_star_count, g.current_pity), (1, 1, 0));
    let none = vec![rec(1, "genshin", 4, true, "x"), rec(2, "genshin", 3, true, "x")];
    let n = compute_pull_counts(&none, "genshin");
    assert_eq!(n.current_pity, 2);
}

#[test]
fn default_query() {
    let q = plan_records_query("starrail", None, None, None, None, None, None);
    assert_eq!(q.limit, 20);
    assert_eq!(q.offset, 0);
    assert_eq!(q.count_sql, "SELECT COUNT(*) FROM gacha_records WHERE game_kind = ?1");
    assert_eq!(q.count_params, vec![SqlValue::Text("starrail".to_string())]);
    assert_eq!(
        q.select_sql,
        "SELECT id, game_kind, item_name, item_type, star_rating, record_date, is_won, banner_type\n             FROM gacha_records\n             WHERE game_kind = ?1\n             ORDER BY record_date DESC, id DESC\n             LIMIT ?2 OFFSET ?3"
    );
    assert_eq!(
        q.select_params,
        vec![SqlValue::Text("starrail".to_string()), SqlValue::Integer(20), SqlValue::Integer(0)]
    );
}

#[test]
fn filtered_query() {
    let q = plan_records_query("starrail", Some(3), Some(10), Some("角色"), Some(5), Some("star"), None);
    assert_eq!((q.limit, q.offset), (10, 20));
    assert_eq!(
        q.count_sql,
        "SELECT COUNT(*) FROM gacha_records WHERE game_kind = ?1 AND banner_type LIKE ?2 AND star_rating = ?3"
    );
    assert!(q.select_sql.ends_with("ORDER BY star_rating DESC, record_date DESC\n             LIMIT ?4 OFFSET ?5"));
    assert_eq!(
        q.select_params,
        vec![
            SqlValue::Text("starrail".to_string()),
            SqlValue::Text("%角色%".to_string()),
            SqlValue::Integer(5),
            SqlValue::Integer(10),
            SqlValue::Integer(20)
        ]
    );
}

#[test]
fn query_edges() {
    let all = plan_records_query("genshin", Some(0), Some(1000), Some("全部"), Some(0), Some("date"), Some("asc"));
    assert_eq!((all.limit, all.offset), (200, 0));
    assert!(all.count_sql.ends_with("WHERE game_kind = ?1"));
    assert!(all.select_sql.contains("ORDER BY record_date ASC, id ASC"));
    let empty = plan_records_query("genshin", Some(-4), Some(-1), Some(""), None, Some("star"), Some("asc"));
    assert_eq!((empty.limit, empty.offset), (1, 0));
    assert!(empty.select_sql.contains("ORDER BY star_rating ASC, record_date DESC"));
    let star_only = plan_records_query("genshin", Some(2), None, None, Some(4), Some("name"), None);
    assert_eq!(star_only.offset, 20);
    assert!(star_only.count_sql.ends_with("game_kind = ?1 AND star_rating = ?2"));
    assert!(star_only.select_sql.ends_with("ORDER BY record_date DESC, id DESC\n             LIMIT ?3 OFFSET ?4"));
    assert_eq!(star_only.offset % star_only.limit, 0);
}

#[test]
fn batch_tally() {
    let mut t = GachaImportResult { imported: 0, duplicates: 0 };
    t = tally_screenshot(t, &ScreenshotOutcome::Processed(GachaImportResult { imported: 5, duplicates: 0 }));
    t = tally_screenshot(t, &ScreenshotOutcome::Unreadable);
    t = tally_screenshot(t, &ScreenshotOutcome::Failed);
    t = tally_screenshot(t, &ScreenshotOutcome::Processed(GachaImportResult { imported: 2, duplicates: 1 }));
    assert_eq!(t, GachaImportResult { imported: 7, duplicates: 3 });
}

#[test]
fn consecutive_pages_are_adjacent() {
    for size in [None, Some(7), Some(500)] {
        for page in 1..5i64 {
            let a = plan_records_query("genshin", Some(page), size, None, None, None, None);
            let b = plan_records_query("genshin", Some(page + 1), size, None, None, None, None);
            assert_eq!(b.offset, a.offset + a.limit);
        }
    }
}

#[test]
fn ascending_order_without_star_key_sorts_by_date() {
    for key in [None, Some("date"), Some("name")] {
        let q = plan_records_query("genshin", None, None, None, None, key, Some("asc"));
        assert!(q.select_sql.contains("ORDER BY record_date ASC, id ASC"), "{:?}", key);
        let d = plan_records_query("genshin", None, None, None, None, key, Some("desc"));
        assert!(d.select_sql.contains("ORDER BY record_date DESC, id DESC"), "{:?}", key);
    }
}
