use astro_origin::authkey::Timestamp;
use astro_origin::config::{
    config_file_name, default_config, default_genshin, default_starrail, expand_path_vars,
    reset_game_config,
};
use astro_origin::game::GameKind;
use astro_origin::keyed::KeyedEntries;

fn type_names(e: &KeyedEntries<String>) -> Vec<(String, String)> {
    e.entries().iter().map(|(k, v)| (k.clone(), v.clone())).collect()
}

#[test]
fn genshin_defaults() {
    let g = default_genshin();
    assert_eq!(
        g.log_dirs,
        vec![
            "%USERPROFILE%/AppData/LocalLow/miHoYo/原神".to_string(),
            "%LOCALAPPDATA%/Genshin Impact".to_string()
        ]
    );
    assert_eq!(g.api_url, "https://public-operation-hk4e.mihoyo.com/gacha_info/api/getGachaLog");
    assert_eq!(g.extra_params, "region=cn_gf01&game_biz=hk4e_cn");
    assert_eq!(g.gacha_types.get("301").map(|s| s.as_str()), Some("角色活动祈愿"));
    assert_eq!(type_names(&g.gacha_types).len(), 5);
    assert!(g.authkey.is_none() && g.authkey_expires_at.is_none());
}

#[test]
fn starrail_defaults() {
    let s = default_starrail();
    assert_eq!(s.log_dirs[1], "%LOCALAPPDATA%/StarRail");
    assert_eq!(
        s.api_url,
        "https://public-operation-hkrpg.mihoyo.com/common/hkrpg_gacha_record/api/getGachaLog"
    );
    assert_eq!(s.extra_params, "region=prod_gf_cn&game_biz=hkrpg_cn");
    assert_eq!(s.gacha_types.get("12").map(|s| s.as_str()), Some("光锥活动跃迁"));
    assert_eq!(s.gacha_types.get("3"), None);
    assert_eq!(type_names(&s.gacha_types).len(), 4);
}

#[test]
fn default_config_has_both_games() {
    let c = default_config();
    assert_eq!(c.games.entries().len(), 2);
    assert_eq!(c.games.get("genshin").unwrap().extra_params, "region=cn_gf01&game_biz=hk4e_cn");
    assert_eq!(c.games.get("starrail").unwrap().extra_params, "region=prod_gf_cn&game_biz=hkrpg_cn");
    assert!(c.games.get("zzz").is_none());
}

#[test]
fn reset_restores_only_the_named_game() {
    let mut c = default_config();
    let mut g = default_genshin();
    g.api_url = "changed".to_string();
    let mut s = default_starrail();
    s.api_url = "changed too".to_string();
    c.games.insert("genshin".to_string(), g);
    c.games.insert("starrail".to_string(), s);
    reset_game_config(&mut c, "genshin");
    assert_eq!(c.games.get("genshin").unwrap().api_url, default_genshin().api_url);
    assert_eq!(c.games.get("starrail").unwrap().api_url, "changed too");
    // Resetting again changes nothing more.
    reset_game_config(&mut c, "genshin");
    assert_eq!(c.games.get("genshin").unwrap().api_url, default_genshin().api_url);
    assert_eq!(c.games.entries().len(), 2);
    // An unknown game is ignored.
    reset_game_config(&mut c, "honkai");
    assert_eq!(c.games.entries().len(), 2);
    reset_game_config(&mut c, "starrail");
    assert_eq!(c.games.get("starrail").unwrap().api_url, default_starrail().api_url);
}

#[test]
fn keyed_entries_replace_values() {
    let mut e: KeyedEntries<String> = KeyedEntries::new();
    e.insert("a".to_string(), "1".to_string());
    e.insert("b".to_string(), "2".to_string());
    e.insert("a".to_string(), "3".to_string());
    assert_eq!(
        type_names(&e),
        vec![("a".to_string(), "3".to_string()), ("b".to_string(), "2".to_string())]
    );
}

#[test]
fn path_variables_are_expanded() {
    assert_eq!(
        expand_path_vars("%USERPROFILE%/AppData/%LOCALAPPDATA%/x%USERPROFILE%", "C:/Users/me", "D:/L"),
        "C:/Users/me/AppData/D:/L/xC:/Users/me"
    );
    assert_eq!(expand_path_vars("no vars", "a", "b"), "no vars");
    assert_eq!(expand_path_vars("%LOCALAPPDATA%/StarRail", "", ""), "/StarRail");
    assert_eq!(config_file_name(), "gacha_config.json");
}

#[test]
fn game_names() {
    assert_eq!(GameKind::from_str("genshin"), Some(GameKind::Genshin));
    assert_eq!(GameKind::from_str("Genshin"), Some(GameKind::Genshin));
    assert_eq!(GameKind::from_str("STARRAIL"), Some(GameKind::StarRail));
    assert_eq!(GameKind::from_str("star rail"), None);
    assert_eq!(GameKind::from_str(""), None);
    assert_eq!(GameKind::Genshin.process_name(), "YuanShen.exe");
    assert_eq!(GameKind::StarRail.process_name(), "StarRail.exe");
    assert_eq!(GameKind::StarRail.title_keywords(), vec!["跃迁记录"]);
    assert_eq!(GameKind::Genshin.title_keywords(), vec!["历史记录"]);
    assert_eq!(GameKind::Genshin.name_normalizations().len(), 8);
    assert_eq!(GameKind::Genshin.name_normalizations()[7], ("德赫雅·角色", "迪希雅"));
    assert_eq!(GameKind::StarRail.name_normalizations()[0], ("布洛妮娅·角色", "布洛妮娅"));
}

#[test]
fn authkey_valid_for_a_day() {
    let mut g = default_genshin();
    let now = Timestamp { secs: 1_700_000_000, nanos: 0 };
    assert!(!g.authkey_valid_at(now));
    g.set_authkey_at("key".to_string(), now);
    assert_eq!(g.authkey.as_deref(), Some("key"));
    assert_eq!(g.authkey_expires_at.as_deref(), Some("2023-11-15T22:13:20+00:00"));
    assert!(g.authkey_valid_at(now));
    assert!(g.authkey_valid_at(Timestamp { secs: 1_700_086_399, nanos: 999_999_999 }));
    assert!(!g.authkey_valid_at(Timestamp { secs: 1_700_086_400, nanos: 0 }));
    let with_nanos = Timestamp { secs: 1_700_000_000, nanos: 500_000_000 };
    g.set_authkey_at("other".to_string(), with_nanos);
    assert_eq!(g.authkey_expires_at.as_deref(), Some("2023-11-15T22:13:20.500+00:00"));
    assert!(g.authkey_valid_at(Timestamp { secs: 1_700_086_400, nanos: 499_999_999 }));
    assert!(!g.authkey_valid_at(Timestamp { secs: 1_700_086_400, nanos: 500_000_000 }));
}

#[test]
fn authkey_with_real_clock() {
    let mut g = default_starrail();
    assert!(!g.is_authkey_valid());
    g.set_authkey("k".to_string());
    assert!(g.is_authkey_valid());
    g.authkey = None;
    assert!(!g.is_authkey_valid());
    g.authkey = Some("k".to_string());
    g.authkey_expires_at = Some("not a date".to_string());
    assert!(!g.is_authkey_valid());
    g.authkey_expires_at = Some("2000-01-01T00:00:00+08:00".to_string());
    assert!(!g.is_authkey_valid());
    g.authkey_expires_at = Some("2999-01-01T00:00:00-05:00".to_string());
    assert!(g.is_authkey_valid());
}
