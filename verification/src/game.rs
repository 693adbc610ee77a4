//! The supported games.
use vstd::prelude::*;
use crate::text::str_eq;

verus! {

/// A supported game.
#[derive(Debug, Clone, Copy, PartialEq, Eq)]
pub enum GameKind {
    Genshin,
    StarRail,
}

/// The lowercase form of a text as `str::to_lowercase` computes it (the
/// Unicode lowercase mapping, which may change the length of the text).
pub uninterp spec fn lowercase(s: Seq<char>) -> Seq<char>;

/// ASCII letters `A` to `Z` lowered, every other character kept.
pub open spec fn ascii_lowercase(s: Seq<char>) -> Seq<char> {
    s.map_values(
        |c: char|
            if 'A' <= c && c <= 'Z' {
                ((c as u32) + 32) as char
            } else {
                c
            },
    )
}

/// Every character of `s` is ASCII.
pub open spec fn is_ascii_text(s: Seq<char>) -> bool {
    forall|i: int| 0 <= i < s.len() ==> (#[trigger] s[i] as u32) < 0x80
}

/// `str::to_lowercase`: the lowercase text, named by [`lowercase`]; on an
/// all-ASCII text it lowers `A` to `Z` and keeps every other character.
#[verifier::external_body]
fn to_lowercase(s: &str) -> (r: String)
    ensures
        r@ == lowercase(s@),
        is_ascii_text(s@) ==> r@ == ascii_lowercase(s@),
{
    s.to_lowercase()
}

/// The game a name denotes, case-insensitively.
pub open spec fn game_named(s: Seq<char>) -> Option<GameKind> {
    if lowercase(s) == "genshin"@ {
        Some(GameKind::Genshin)
    } else if lowercase(s) == "starrail"@ {
        Some(GameKind::StarRail)
    } else {
        None
    }
}

/// The game an ASCII name denotes, ignoring the case of its letters.
pub open spec fn game_named_ascii(s: Seq<char>) -> Option<GameKind> {
    if ascii_lowercase(s) == "genshin"@ {
        Some(GameKind::Genshin)
    } else if ascii_lowercase(s) == "starrail"@ {
        Some(GameKind::StarRail)
    } else {
        None
    }
}

/// File name of a game's process.
pub open spec fn process_file(g: GameKind) -> Seq<char> {
    match g {
        GameKind::Genshin => "YuanShen.exe"@,
        GameKind::StarRail => "StarRail.exe"@,
    }
}

/// Words that the title of a game's history page holds.
pub open spec fn title_words(g: GameKind) -> Seq<Seq<char>> {
    match g {
        GameKind::Genshin => seq!["历史记录"@],
        GameKind::StarRail => seq!["跃迁记录"@],
    }
}

/// Recognised item names and the names they stand for.
pub open spec fn name_fixes(g: GameKind) -> Seq<(Seq<char>, Seq<char>)> {
    match g {
        GameKind::Genshin => seq![
            ("七七·角色"@, "七七"@),
            ("刻晴·角色"@, "刻晴"@),
            ("迪卢克·角色"@, "迪卢克"@),
            ("莫娜·角色"@, "莫娜"@),
            ("琴·角色"@, "琴"@),
            ("提纳里·角色"@, "提纳里"@),
            ("迪希雅·角色"@, "迪希雅"@),
            ("德赫雅·角色"@, "迪希雅"@),
        ],
        GameKind::StarRail => seq![
            ("布洛妮娅·角色"@, "布洛妮娅"@),
            ("姬子·角色"@, "姬子"@),
            ("瓦尔特·角色"@, "瓦尔特"@),
            ("白露·角色"@, "白露"@),
            ("杰帕德·角色"@, "杰帕德"@),
            ("彦卿·角色"@, "彦卿"@),
            ("克拉拉·角色"@, "克拉拉"@),
        ],
    }
}

impl GameKind {
    /// The game named `s` (`genshin` or `starrail`, in any case).
    pub fn from_str(s: &str) -> (r: Option<GameKind>)
        ensures
            r == game_named(s@),
            is_ascii_text(s@) ==> r == game_named_ascii(s@),
    {
        let lower = to_lowercase(s);
        if str_eq(lower.as_str(), "genshin") {
            Some(GameKind::Genshin)
        } else if str_eq(lower.as_str(), "starrail") {
            Some(GameKind::StarRail)
        } else {
            None
        }
    }

    /// File name of the game's process.
    pub fn process_name(&self) -> (r: &'static str)
        ensures
            r@ == process_file(*self),
    {
        match self {
            GameKind::Genshin => "YuanShen.exe",
            GameKind::StarRail => "StarRail.exe",
        }
    }

    /// Words that the title of the game's history page holds.
    pub fn title_keywords(&self) -> (r: Vec<&'static str>)
        ensures
            r@.map_values(|s: &str| s@) == title_words(*self),
    {
        let r = match self {
            GameKind::Genshin => vec!["历史记录"],
            GameKind::StarRail => vec!["跃迁记录"],
        };
        assert(r@.map_values(|s: &str| s@) =~= title_words(*self));
        r
    }

    /// Recognised item names and the names they stand for.
    pub fn name_normalizations(&self) -> (r: Vec<(&'static str, &'static str)>)
        ensures
            r@.map_values(|p: (&str, &str)| (p.0@, p.1@)) == name_fixes(*self),
    {
        let r = match self {
            GameKind::Genshin => vec![
                ("七七·角色", "七七"),
                ("刻晴·角色", "刻晴"),
                ("迪卢克·角色", "迪卢克"),
                ("莫娜·角色", "莫娜"),
                ("琴·角色", "琴"),
                ("提纳里·角色", "提纳里"),
                ("迪希雅·角色", "迪希雅"),
                ("德赫雅·角色", "迪希雅"),
            ],
            GameKind::StarRail => vec![
                ("布洛妮娅·角色", "布洛妮娅"),
                ("姬子·角色", "姬子"),
                ("瓦尔特·角色", "瓦尔特"),
                ("白露·角色", "白露"),
                ("杰帕德·角色", "杰帕德"),
                ("彦卿·角色", "彦卿"),
                ("克拉拉·角色", "克拉拉"),
            ],
        };
        assert(r@.map_values(|p: (&str, &str)| (p.0@, p.1@)) =~= name_fixes(*self));
        r
    }
}

} // verus!
