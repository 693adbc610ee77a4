//! Per-game configuration of the history import: where the game keeps its
//! logs, the history endpoint, and the names of its banner types.
use vstd::prelude::*;
use crate::keyed::KeyedEntries;
use crate::text::{chars_of, extend_chars, replace_all, replace_chars, str_eq, string_of};

verus! {

/// Configuration of one game.
pub struct GameConfig {
    pub log_dirs: Vec<String>,
    pub api_url: String,
    pub extra_params: String,
    /// Banner type code to banner name.
    pub gacha_types: KeyedEntries<String>,
    pub authkey: Option<String>,
    /// RFC 3339 time at which `authkey` stops being accepted.
    pub authkey_expires_at: Option<String>,
}

/// Configuration of all games, keyed by game name.
pub struct GachaConfig {
    pub games: KeyedEntries<GameConfig>,
}

/// The model of a game's configuration.
pub struct GameConfigModel {
    pub log_dirs: Seq<Seq<char>>,
    pub api_url: Seq<char>,
    pub extra_params: Seq<char>,
    pub gacha_types: Map<Seq<char>, Seq<char>>,
    pub authkey: Option<Seq<char>>,
    pub authkey_expires_at: Option<Seq<char>>,
}

pub open spec fn opt_text(o: Option<String>) -> Option<Seq<char>> {
    match o {
        Some(s) => Some(s@),
        None => None,
    }
}

impl View for GameConfig {
    type V = GameConfigModel;

    open spec fn view(&self) -> GameConfigModel {
        GameConfigModel {
            log_dirs: self.log_dirs@.map_values(|s: String| s@),
            api_url: self.api_url@,
            extra_params: self.extra_params@,
            gacha_types: self.gacha_types@,
            authkey: opt_text(self.authkey),
            authkey_expires_at: opt_text(self.authkey_expires_at),
        }
    }
}

impl View for GachaConfig {
    type V = Map<Seq<char>, GameConfigModel>;

    open spec fn view(&self) -> Map<Seq<char>, GameConfigModel> {
        self.games@
    }
}

/// The default configuration of Genshin Impact.
pub open spec fn genshin_defaults() -> GameConfigModel {
    GameConfigModel {
        log_dirs: seq![
            "%USERPROFILE%/AppData/LocalLow/miHoYo/原神"@,
            "%LOCALAPPDATA%/Genshin Impact"@,
        ],
        api_url: "https://public-operation-hk4e.mihoyo.com/gacha_info/api/getGachaLog"@,
        extra_params: "region=cn_gf01&game_biz=hk4e_cn"@,
        gacha_types: Map::empty().insert("100"@, "新手祈愿"@).insert("200"@, "常驻祈愿"@).insert(
            "301"@,
            "角色活动祈愿"@,
        ).insert("302"@, "武器活动祈愿"@).insert("500"@, "集录祈愿"@),
        authkey: None,
        authkey_expires_at: None,
    }
}

/// The default configuration of Honkai: Star Rail.
pub open spec fn starrail_defaults() -> GameConfigModel {
    GameConfigModel {
        log_dirs: seq!["%USERPROFILE%/AppData/LocalLow/miHoYo/崩坏：星穹铁道"@, "%LOCALAPPDATA%/StarRail"@],
        api_url: "https://public-operation-hkrpg.mihoyo.com/common/hkrpg_gacha_record/api/getGachaLog"@,
        extra_params: "region=prod_gf_cn&game_biz=hkrpg_cn"@,
        gacha_types: Map::empty().insert("1"@, "常驻跃迁"@).insert("2"@, "新手跃迁"@).insert(
            "11"@,
            "角色活动跃迁"@,
        ).insert("12"@, "光锥活动跃迁"@),
        authkey: None,
        authkey_expires_at: None,
    }
}

/// The default configuration of all games.
pub open spec fn config_defaults() -> Map<Seq<char>, GameConfigModel> {
    Map::empty().insert("genshin"@, genshin_defaults()).insert("starrail"@, starrail_defaults())
}

/// The configuration after resetting `game` to its defaults; a game other
/// than `genshin` and `starrail` leaves it unchanged.
pub open spec fn reset_model(m: Map<Seq<char>, GameConfigModel>, game: Seq<char>) -> Map<
    Seq<char>,
    GameConfigModel,
> {
    if game == "genshin"@ {
        m.insert("genshin"@, genshin_defaults())
    } else if game == "starrail"@ {
        m.insert("starrail"@, starrail_defaults())
    } else {
        m
    }
}

fn owned(s: &str) -> (r: String)
    ensures
        r@ == s@,
{
    let mut v: Vec<char> = Vec::new();
    extend_chars(&mut v, s);
    string_of(&v)
}

fn game_defaults(
    dirs: [&str; 2],
    api_url: &str,
    extra_params: &str,
    types: &Vec<(&str, &str)>,
) -> (r: GameConfig)
    ensures
        r@.log_dirs == seq![dirs[0]@, dirs[1]@],
        r@.api_url == api_url@,
        r@.extra_params == extra_params@,
        r@.authkey is None,
        r@.authkey_expires_at is None,
        r@.gacha_types == types_map(types@),
{
    let mut gacha_types: KeyedEntries<String> = KeyedEntries::new();
    let mut i: usize = 0;
    while i < types.len()
        invariant
            i <= types.len(),
            gacha_types@ == types_map(types@.take(i as int)),
        decreases types.len() - i,
    {
        let (code, name) = types[i];
        gacha_types.insert(owned(code), owned(name));
        assert(types@.take(i + 1).drop_last() == types@.take(i as int));
        i = i + 1;
    }
    assert(types@.take(types.len() as int) == types@);
    let log_dirs = vec![owned(dirs[0]), owned(dirs[1])];
    let r = GameConfig {
        log_dirs,
        api_url: owned(api_url),
        extra_params: owned(extra_params),
        gacha_types,
        authkey: None,
        authkey_expires_at: None,
    };
    assert(r@.log_dirs =~= seq![dirs[0]@, dirs[1]@]);
    r
}

/// The map that a list of code/name pairs builds, later pairs overriding.
pub open spec fn types_map(s: Seq<(&str, &str)>) -> Map<Seq<char>, Seq<char>>
    decreases s.len(),
{
    if s.len() == 0 {
        Map::empty()
    } else {
        types_map(s.drop_last()).insert(s.last().0@, s.last().1@)
    }
}

/// The default configuration of Genshin Impact.
pub fn default_genshin() -> (r: GameConfig)
    ensures
        r@ == genshin_defaults(),
{
    let types = vec![
        ("100", "新手祈愿"),
        ("200", "常驻祈愿"),
        ("301", "角色活动祈愿"),
        ("302", "武器活动祈愿"),
        ("500", "集录祈愿"),
    ];
    let r = game_defaults(
        ["%USERPROFILE%/AppData/LocalLow/miHoYo/原神", "%LOCALAPPDATA%/Genshin Impact"],
        "https://public-operation-hk4e.mihoyo.com/gacha_info/api/getGachaLog",
        "region=cn_gf01&game_biz=hk4e_cn",
        &types,
    );
    proof {
        reveal_with_fuel(types_map, 6);
    }
    assert(r@.gacha_types =~= genshin_defaults().gacha_types);
    r
}

/// The default configuration of Honkai: Star Rail.
pub fn default_starrail() -> (r: GameConfig)
    ensures
        r@ == starrail_defaults(),
{
    let types = vec![("1", "常驻跃迁"), ("2", "新手跃迁"), ("11", "角色活动跃迁"), ("12", "光锥活动跃迁")];
    let r = game_defaults(
        ["%USERPROFILE%/AppData/LocalLow/miHoYo/崩坏：星穹铁道", "%LOCALAPPDATA%/StarRail"],
        "https://public-operation-hkrpg.mihoyo.com/common/hkrpg_gacha_record/api/getGachaLog",
        "region=prod_gf_cn&game_biz=hkrpg_cn",
        &types,
    );
    proof {
        reveal_with_fuel(types_map, 5);
    }
    assert(r@.gacha_types =~= starrail_defaults().gacha_types);
    r
}

/// The default configuration of both games.
pub fn default_config() -> (r: GachaConfig)
    ensures
        r@ == config_defaults(),
{
    let mut games: KeyedEntries<GameConfig> = KeyedEntries::new();
    games.insert(owned("genshin"), default_genshin());
    games.insert(owned("starrail"), default_starrail());
    GachaConfig { games }
}

/// Resets the configuration of `game` (`genshin` or `starrail`) to its
/// defaults; any other name leaves the configuration as it is.
pub fn reset_game_config(config: &mut GachaConfig, game: &str)
    ensures
        final(config)@ == reset_model(old(config)@, game@),
{
    if str_eq(game, "genshin") {
        config.games.insert(owned("genshin"), default_genshin());
    } else if str_eq(game, "starrail") {
        config.games.insert(owned("starrail"), default_starrail());
    }
}

/// Resetting a game twice is resetting it once.
pub proof fn lemma_reset_idempotent(m: Map<Seq<char>, GameConfigModel>, game: Seq<char>)
    ensures
        reset_model(reset_model(m, game), game) == reset_model(m, game),
{
    assert(reset_model(reset_model(m, game), game) =~= reset_model(m, game));
}

/// Resetting a game leaves the configuration of every other game as it was.
pub proof fn lemma_reset_keeps_others(
    m: Map<Seq<char>, GameConfigModel>,
    game: Seq<char>,
    other: Seq<char>,
)
    requires
        other != game,
        m.contains_key(other),
    ensures
        reset_model(m, game).contains_key(other),
        reset_model(m, game)[other] == m[other],
{
}

/// Name of the configuration file within the application's data directory.
pub fn config_file_name() -> (r: &'static str)
    ensures
        r@ == "gacha_config.json"@,
{
    "gacha_config.json"
}

/// The text of a configured path with `%USERPROFILE%` and then
/// `%LOCALAPPDATA%` replaced by the given values.
pub open spec fn expanded_path(
    s: Seq<char>,
    user_profile: Seq<char>,
    local_app_data: Seq<char>,
) -> Seq<char> {
    replace_all(
        replace_all(s, "%USERPROFILE%"@, user_profile),
        "%LOCALAPPDATA%"@,
        local_app_data,
    )
}

/// Replaces `%USERPROFILE%` and then `%LOCALAPPDATA%` in `s` by the given
/// values of those environment variables.
pub fn expand_path_vars(s: &str, user_profile: &str, local_app_data: &str) -> (r: String)
    ensures
        r@ == expanded_path(s@, user_profile@, local_app_data@),
{
    let v = chars_of(s);
    let up_name = chars_of("%USERPROFILE%");
    let la_name = chars_of("%LOCALAPPDATA%");
    proof {
        reveal_strlit("%USERPROFILE%");
        reveal_strlit("%LOCALAPPDATA%");
    }
    let v1 = replace_chars(&v, &up_name, &chars_of(user_profile));
    let v2 = replace_chars(&v1, &la_name, &chars_of(local_app_data));
    string_of(&v2)
}

} // verus!
