//! Item names of the warp history: the names the recogniser is corrected
//! against, and the star rating known for each.
use vstd::prelude::*;
use crate::text::{
    byte_len, byte_length, chars_of, contains, has_substr, is_ws, is_whitespace, occurs_at, str_eq,
    string_of,
};

verus! {

/// Three-star light cones.
pub open spec fn three_star_names() -> Seq<Seq<char>> {
    seq!["轮契"@, "齐颂"@, "蕃息"@, "嘉果"@, "锋镝"@, "物穰"@, "睿见"@]
}

/// Four-star characters.
pub open spec fn four_star_names() -> Seq<Seq<char>> {
    seq![
        "素裳"@, "三月七"@, "丹恒"@, "希露瓦"@, "黑塔"@, "阿兰"@, "艾丝妲"@, "青雀"@, "停云"@,
        "驭空"@, "佩拉"@, "卢卡"@, "米沙"@, "雪衣"@, "寒鸦"@, "加拉赫"@, "虎克"@, "娜塔莎"@,
        "桑博"@, "桂乃芬"@,
    ]
}

/// Five-star characters.
pub open spec fn five_star_names() -> Seq<Seq<char>> {
    seq![
        "希儿"@, "景元"@, "刃"@, "卡芙卡"@, "银狼"@, "罗刹"@, "布洛妮娅"@, "杰帕德"@, "克拉拉"@,
        "彦卿"@, "白露"@, "姬子"@, "瓦尔特"@,
    ]
}

/// The Star Rail item names that recognised names are corrected against,
/// in the order in which they are tried.
pub open spec fn starrail_names() -> Seq<Seq<char>> {
    three_star_names() + four_star_names() + five_star_names()
}

/// The star rating known for an item name.
pub open spec fn known_rating(name: Seq<char>) -> Option<i32> {
    if five_star_names().contains(name) {
        Some(5)
    } else if four_star_names().contains(name) {
        Some(4)
    } else if three_star_names().contains(name) {
        Some(3)
    } else {
        None
    }
}

/// The characters of a recognised name that take part in matching: all but
/// whitespace and the separators `·`, `-`, `:` and `：`.
pub open spec fn name_key(s: Seq<char>) -> Seq<char> {
    s.filter(|c: char| !is_ws(c) && c != '·' && c != '-' && c != ':' && c != '：')
}

/// Scanning `names` in order with the current choice `best` of byte length
/// `best_len`: a name that the text contains, or that contains the key, and
/// that is longer in bytes than the current choice, replaces it.
pub open spec fn best_name(
    ocr: Seq<char>,
    key: Seq<char>,
    names: Seq<Seq<char>>,
    best: Seq<char>,
    best_len: nat,
) -> Seq<char>
    decreases names.len(),
{
    if names.len() == 0 {
        best
    } else {
        let k = names[0];
        if (has_substr(ocr, k) || has_substr(k, key)) && byte_len(k) > best_len {
            best_name(ocr, key, names.drop_first(), k, byte_len(k))
        } else {
            best_name(ocr, key, names.drop_first(), best, best_len)
        }
    }
}

/// The name that a recognised name is corrected to: the text itself when
/// its key is empty, else the first longest (in bytes) known name that the
/// text contains or that contains the key, else the text itself.
pub open spec fn fuzzy_name(ocr: Seq<char>) -> Seq<char> {
    let key = name_key(ocr);
    if key.len() == 0 {
        ocr
    } else {
        best_name(ocr, key, starrail_names(), ocr, 0)
    }
}

fn three_star_list() -> (r: Vec<&'static str>)
    ensures
        r@.map_values(|s: &str| s@) == three_star_names(),
{
    let r = vec!["轮契", "齐颂", "蕃息", "嘉果", "锋镝", "物穰", "睿见"];
    assert(r@.map_values(|s: &str| s@) =~= three_star_names());
    r
}

fn four_star_list() -> (r: Vec<&'static str>)
    ensures
        r@.map_values(|s: &str| s@) == four_star_names(),
{
    let r = vec![
        "素裳", "三月七", "丹恒", "希露瓦", "黑塔", "阿兰", "艾丝妲", "青雀", "停云", "驭空",
        "佩拉", "卢卡", "米沙", "雪衣", "寒鸦", "加拉赫", "虎克", "娜塔莎", "桑博", "桂乃芬",
    ];
    assert(r@.map_values(|s: &str| s@) =~= four_star_names());
    r
}

fn five_star_list() -> (r: Vec<&'static str>)
    ensures
        r@.map_values(|s: &str| s@) == five_star_names(),
{
    let r = vec![
        "希儿", "景元", "刃", "卡芙卡", "银狼", "罗刹", "布洛妮娅", "杰帕德", "克拉拉", "彦卿",
        "白露", "姬子", "瓦尔特",
    ];
    assert(r@.map_values(|s: &str| s@) =~= five_star_names());
    r
}

/// The Star Rail item names that recognised names are corrected against.
pub fn starrail_name_list() -> (r: Vec<&'static str>)
    ensures
        r@.map_values(|s: &str| s@) == starrail_names(),
{
    let mut r = three_star_list();
    let four = four_star_list();
    let five = five_star_list();
    let ghost a = r@;
    let mut i: usize = 0;
    while i < four.len()
        invariant
            i <= four.len(),
            r@ == a + four@.take(i as int),
        decreases four.len() - i,
    {
        r.push(four[i]);
        i = i + 1;
        assert(four@.take(i as int) == four@.take(i - 1).push(four@[i - 1]));
    }
    assert(four@.take(four.len() as int) == four@);
    let ghost b = r@;
    i = 0;
    while i < five.len()
        invariant
            i <= five.len(),
            r@ == b + five@.take(i as int),
        decreases five.len() - i,
    {
        r.push(five[i]);
        i = i + 1;
        assert(five@.take(i as int) == five@.take(i - 1).push(five@[i - 1]));
    }
    assert(five@.take(five.len() as int) == five@);
    assert(r@.map_values(|s: &str| s@) =~= starrail_names());
    r
}

/// Whether `name` equals one of the names in `list`.
fn listed(list: &Vec<&'static str>, name: &str) -> (r: bool)
    ensures
        r == list@.map_values(|s: &str| s@).contains(name@),
{
    let ghost views = list@.map_values(|s: &str| s@);
    let mut i: usize = 0;
    while i < list.len()
        invariant
            i <= list.len(),
            views == list@.map_values(|s: &str| s@),
            forall|j: int| 0 <= j < i ==> views[j] != name@,
        decreases list.len() - i,
    {
        if str_eq(list[i], name) {
            assert(views[i as int] == name@);
            return true;
        }
        i = i + 1;
    }
    false
}

/// The star rating known for an item name, used when the colour of the name
/// on the screenshot does not decide it.
pub fn known_star_rating(name: &str) -> (r: Option<i32>)
    ensures
        r == known_rating(name@),
{
    if listed(&five_star_list(), name) {
        Some(5)
    } else if listed(&four_star_list(), name) {
        Some(4)
    } else if listed(&three_star_list(), name) {
        Some(3)
    } else {
        None
    }
}

/// Corrects a recognised item name to a known Star Rail name (see
/// [`fuzzy_name`]).
pub fn fuzzy_match_name(ocr: &str) -> (r: String)
    ensures
        r@ == fuzzy_name(ocr@),
        r@ == ocr@ || starrail_names().contains(r@),
        fuzzy_name(r@) == r@,
{
    let text = chars_of(ocr);
    let mut key: Vec<char> = Vec::new();
    let mut i: usize = 0;
    while i < text.len()
        invariant
            i <= text.len(),
            key@ == name_key(text@.take(i as int)),
        decreases text.len() - i,
    {
        let c = text[i];
        proof {
            reveal_with_fuel(Seq::filter, 1);
            assert(text@.take(i + 1).drop_last() == text@.take(i as int));
        }
        if !is_whitespace(c) && c != '·' && c != '-' && c != ':' && c != '：' {
            key.push(c);
        }
        i = i + 1;
    }
    assert(text@.take(text.len() as int) == text@);
    if key.len() == 0 {
        return string_of(&text);
    }
    let names = starrail_name_list();
    let ghost views = names@.map_values(|s: &str| s@);
    let mut best = chars_of(ocr);
    let mut best_len: u128 = 0;
    let mut n: usize = 0;
    assert(views.skip(0) == views);
    while n < names.len()
        invariant
            n <= names.len(),
            views == names@.map_values(|s: &str| s@),
            views == starrail_names(),
            text@ == ocr@,
            key@ == name_key(ocr@),
            best_name(ocr@, key@, views.skip(n as int), best@, best_len as nat) == fuzzy_name(
                ocr@,
            ),
        decreases names.len() - n,
    {
        let known = names[n];
        let kv = chars_of(known);
        let klen = byte_length(&kv);
        proof {
            assert(views.skip(n as int)[0] == known@);
            assert(views.skip(n as int).drop_first() == views.skip(n + 1));
            assert(views[n as int] == known@);
        }
        if (contains(&text, &kv) || contains(&kv, &key)) && klen > best_len {
            best = kv;
            best_len = klen;
        }
        n = n + 1;
    }
    assert(views.skip(names.len() as int).len() == 0);
    proof {
        lemma_fuzzy_name_origin(ocr@);
        lemma_fuzzy_name_idempotent(ocr@);
    }
    string_of(&best)
}

/// The star ratings of the known names, name by name: five-star
/// characters, four-star characters and three-star light cones.
pub proof fn lemma_known_ratings_table()
    ensures
        known_rating("希儿"@) == Some(5i32),
        known_rating("景元"@) == Some(5i32),
        known_rating("刃"@) == Some(5i32),
        known_rating("卡芙卡"@) == Some(5i32),
        known_rating("银狼"@) == Some(5i32),
        known_rating("罗刹"@) == Some(5i32),
        known_rating("布洛妮娅"@) == Some(5i32),
        known_rating("杰帕德"@) == Some(5i32),
        known_rating("克拉拉"@) == Some(5i32),
        known_rating("彦卿"@) == Some(5i32),
        known_rating("白露"@) == Some(5i32),
        known_rating("姬子"@) == Some(5i32),
        known_rating("瓦尔特"@) == Some(5i32),
        known_rating("素裳"@) == Some(4i32),
        known_rating("三月七"@) == Some(4i32),
        known_rating("丹恒"@) == Some(4i32),
        known_rating("希露瓦"@) == Some(4i32),
        known_rating("黑塔"@) == Some(4i32),
        known_rating("阿兰"@) == Some(4i32),
        known_rating("艾丝妲"@) == Some(4i32),
        known_rating("青雀"@) == Some(4i32),
        known_rating("停云"@) == Some(4i32),
        known_rating("驭空"@) == Some(4i32),
        known_rating("佩拉"@) == Some(4i32),
        known_rating("卢卡"@) == Some(4i32),
        known_rating("米沙"@) == Some(4i32),
        known_rating("雪衣"@) == Some(4i32),
        known_rating("寒鸦"@) == Some(4i32),
        known_rating("加拉赫"@) == Some(4i32),
        known_rating("虎克"@) == Some(4i32),
        known_rating("娜塔莎"@) == Some(4i32),
        known_rating("桑博"@) == Some(4i32),
        known_rating("桂乃芬"@) == Some(4i32),
        known_rating("轮契"@) == Some(3i32),
        known_rating("齐颂"@) == Some(3i32),
        known_rating("蕃息"@) == Some(3i32),
        known_rating("嘉果"@) == Some(3i32),
        known_rating("锋镝"@) == Some(3i32),
        known_rating("物穰"@) == Some(3i32),
        known_rating("睿见"@) == Some(3i32),
{
    reveal_strlit("希儿");
    reveal_strlit("景元");
    reveal_strlit("刃");
    reveal_strlit("卡芙卡");
    reveal_strlit("银狼");
    reveal_strlit("罗刹");
    reveal_strlit("布洛妮娅");
    reveal_strlit("杰帕德");
    reveal_strlit("克拉拉");
    reveal_strlit("彦卿");
    reveal_strlit("白露");
    reveal_strlit("姬子");
    reveal_strlit("瓦尔特");
    reveal_strlit("素裳");
    reveal_strlit("三月七");
    reveal_strlit("丹恒");
    reveal_strlit("希露瓦");
    reveal_strlit("黑塔");
    reveal_strlit("阿兰");
    reveal_strlit("艾丝妲");
    reveal_strlit("青雀");
    reveal_strlit("停云");
    reveal_strlit("驭空");
    reveal_strlit("佩拉");
    reveal_strlit("卢卡");
    reveal_strlit("米沙");
    reveal_strlit("雪衣");
    reveal_strlit("寒鸦");
    reveal_strlit("加拉赫");
    reveal_strlit("虎克");
    reveal_strlit("娜塔莎");
    reveal_strlit("桑博");
    reveal_strlit("桂乃芬");
    reveal_strlit("轮契");
    reveal_strlit("齐颂");
    reveal_strlit("蕃息");
    reveal_strlit("嘉果");
    reveal_strlit("锋镝");
    reveal_strlit("物穰");
    reveal_strlit("睿见");
    assert forall|a: int, b: int| 0 <= a < 13 && 0 <= b < 20 implies #[trigger] five_star_names()[a]
        != #[trigger] four_star_names()[b] by {
        assert(five_star_names()[a].len() != four_star_names()[b].len() || five_star_names()[a][0]
            != four_star_names()[b][0] || five_star_names()[a][1] != four_star_names()[b][1]);
    }
    assert forall|a: int, b: int| 0 <= a < 13 && 0 <= b < 7 implies #[trigger] five_star_names()[a]
        != #[trigger] three_star_names()[b] by {
        assert(five_star_names()[a].len() != three_star_names()[b].len() || five_star_names()[a][0]
            != three_star_names()[b][0]);
    }
    assert forall|a: int, b: int| 0 <= a < 20 && 0 <= b < 7 implies #[trigger] four_star_names()[a]
        != #[trigger] three_star_names()[b] by {
        assert(four_star_names()[a].len() != three_star_names()[b].len() || four_star_names()[a][0]
            != three_star_names()[b][0]);
    }
}

/// Every name that recognised names are corrected to has a known rating.
pub proof fn lemma_listed_names_rated(name: Seq<char>)
    requires
        starrail_names().contains(name),
    ensures
        known_rating(name) is Some,
{
    let i = choose|i: int| 0 <= i < starrail_names().len() && starrail_names()[i] == name;
    if i < 7 {
        assert(three_star_names()[i] == name);
    } else if i < 27 {
        assert(four_star_names()[i - 7] == name);
    } else {
        assert(five_star_names()[i - 27] == name);
    }
}

proof fn lemma_best_name_origin(
    ocr: Seq<char>,
    key: Seq<char>,
    names: Seq<Seq<char>>,
    best: Seq<char>,
    best_len: nat,
)
    ensures
        best_name(ocr, key, names, best, best_len) == best || names.contains(
            best_name(ocr, key, names, best, best_len),
        ),
    decreases names.len(),
{
    if names.len() > 0 {
        let k = names[0];
        let rest = names.drop_first();
        if (has_substr(ocr, k) || has_substr(k, key)) && byte_len(k) > best_len {
            lemma_best_name_origin(ocr, key, rest, k, byte_len(k));
        } else {
            lemma_best_name_origin(ocr, key, rest, best, best_len);
        }
        let r = best_name(ocr, key, names, best, best_len);
        if rest.contains(r) {
            let j = choose|j: int| 0 <= j < rest.len() && rest[j] == r;
            assert(names[j + 1] == r);
        }
        if r == k {
            assert(names[0] == r);
        }
    }
}

/// The corrected name is the recognised text itself or one of the known
/// Star Rail names.
pub proof fn lemma_fuzzy_name_origin(ocr: Seq<char>)
    ensures
        fuzzy_name(ocr) == ocr || starrail_names().contains(fuzzy_name(ocr)),
{
    let key = name_key(ocr);
    if key.len() > 0 {
        lemma_best_name_origin(ocr, key, starrail_names(), ocr, 0);
    }
}

/// When fuzzy matching changes a recognised name, the name it produces has
/// a known star rating.
pub proof fn lemma_corrected_name_rated(ocr: Seq<char>)
    requires
        fuzzy_name(ocr) != ocr,
    ensures
        known_rating(fuzzy_name(ocr)) is Some,
{
    lemma_fuzzy_name_origin(ocr);
    lemma_listed_names_rated(fuzzy_name(ocr));
}

// ---------------------------------------------------------------------------
// Known names are kept
// ---------------------------------------------------------------------------

/// The position, within the `b`-th known name, of a character that no other
/// known name at least as long holds.
spec fn telling_index(b: int) -> int {
    if b == 27 || b == 39 {
        1
    } else {
        0
    }
}

/// What is known of the characters of the known names: each is a CJK
/// ideograph, and each name has a character that tells it from every other
/// name at least as long.
proof fn lemma_name_chars()
    ensures
        starrail_names().len() == 40,
        forall|a: int, i: int|
            0 <= a < 40 && 0 <= i < starrail_names()[a].len() ==> 0x4E00 <= (
            #[trigger] starrail_names()[a][i] as u32) <= 0x9FFF,
        forall|a: int| 0 <= a < 40 ==> #[trigger] starrail_names()[a].len() > telling_index(a),
        forall|a: int, b: int, i: int|
            0 <= a < 40 && 0 <= b < 40 && a != b && 0 <= i < starrail_names()[a].len()
                && starrail_names()[a].len() >= starrail_names()[b].len() ==> #[trigger] starrail_names()[a][i]
                != #[trigger] starrail_names()[b][telling_index(b)],
{
    reveal_strlit("轮契");
    reveal_strlit("齐颂");
    reveal_strlit("蕃息");
    reveal_strlit("嘉果");
    reveal_strlit("锋镝");
    reveal_strlit("物穰");
    reveal_strlit("睿见");
    reveal_strlit("素裳");
    reveal_strlit("三月七");
    reveal_strlit("丹恒");
    reveal_strlit("希露瓦");
    reveal_strlit("黑塔");
    reveal_strlit("阿兰");
    reveal_strlit("艾丝妲");
    reveal_strlit("青雀");
    reveal_strlit("停云");
    reveal_strlit("驭空");
    reveal_strlit("佩拉");
    reveal_strlit("卢卡");
    reveal_strlit("米沙");
    reveal_strlit("雪衣");
    reveal_strlit("寒鸦");
    reveal_strlit("加拉赫");
    reveal_strlit("虎克");
    reveal_strlit("娜塔莎");
    reveal_strlit("桑博");
    reveal_strlit("桂乃芬");
    reveal_strlit("希儿");
    reveal_strlit("景元");
    reveal_strlit("刃");
    reveal_strlit("卡芙卡");
    reveal_strlit("银狼");
    reveal_strlit("罗刹");
    reveal_strlit("布洛妮娅");
    reveal_strlit("杰帕德");
    reveal_strlit("克拉拉");
    reveal_strlit("彦卿");
    reveal_strlit("白露");
    reveal_strlit("姬子");
    reveal_strlit("瓦尔特");
}

proof fn lemma_not_within(n: Seq<char>, k: Seq<char>, j: int)
    requires
        0 <= j < k.len(),
        n.len() < k.len() || forall|i: int| 0 <= i < n.len() ==> n[i] != k[j],
    ensures
        !has_substr(n, k),
{
    if has_substr(n, k) {
        let i = choose|i: int| occurs_at(n, k, i);
        assert(n.subrange(i, i + k.len())[j] == n[i + j]);
    }
}

/// No known name holds another.
proof fn lemma_names_apart(a: int, b: int)
    requires
        0 <= a < 40,
        0 <= b < 40,
        a != b,
    ensures
        !has_substr(starrail_names()[a], starrail_names()[b]),
{
    lemma_name_chars();
    let n = starrail_names()[a];
    let k = starrail_names()[b];
    let j = telling_index(b);
    assert(k.len() > j);
    if n.len() >= k.len() {
        assert forall|i: int| 0 <= i < n.len() implies n[i] != k[j] by {
            assert(starrail_names()[a][i] != starrail_names()[b][telling_index(b)]);
        }
    }
    lemma_not_within(n, k, j);
}

proof fn lemma_best_name_stays(
    ocr: Seq<char>,
    key: Seq<char>,
    names: Seq<Seq<char>>,
    best: Seq<char>,
    best_len: nat,
)
    requires
        forall|x: int|
            0 <= x < names.len() && (has_substr(ocr, #[trigger] names[x]) || has_substr(
                names[x],
                key,
            )) ==> names[x] == best,
    ensures
        best_name(ocr, key, names, best, best_len) == best,
    decreases names.len(),
{
    if names.len() > 0 {
        let rest = names.drop_first();
        assert forall|x: int|
            0 <= x < rest.len() && (has_substr(ocr, #[trigger] rest[x]) || has_substr(
                rest[x],
                key,
            )) implies rest[x] == best by {
            assert(rest[x] == names[x + 1]);
        }
        let k = names[0];
        if (has_substr(ocr, k) || has_substr(k, key)) && byte_len(k) > best_len {
            lemma_best_name_stays(ocr, key, rest, best, byte_len(k));
        } else {
            lemma_best_name_stays(ocr, key, rest, best, best_len);
        }
    }
}

/// A known Star Rail name is kept as it is.
pub proof fn lemma_known_name_kept(k: Seq<char>)
    requires
        starrail_names().contains(k),
    ensures
        fuzzy_name(k) == k,
{
    lemma_name_chars();
    let names = starrail_names();
    let b = choose|b: int| 0 <= b < names.len() && names[b] == k;
    assert(k.len() > 0) by {
        assert(names[b].len() > telling_index(b));
    }
    assert forall|i: int| 0 <= i < k.len() implies {
        let c = #[trigger] k[i];
        !is_ws(c) && c != '·' && c != '-' && c != ':' && c != '：'
    } by {
        assert(0x4E00 <= (names[b][i] as u32) <= 0x9FFF);
    }
    lemma_filter_keeps_all(k);
    assert forall|x: int|
        0 <= x < names.len() && (has_substr(k, #[trigger] names[x]) || has_substr(names[x], k))
            implies names[x] == k by {
        if x != b {
            lemma_names_apart(b, x);
            lemma_names_apart(x, b);
        }
    }
    lemma_best_name_stays(k, k, names, k, 0);
}

proof fn lemma_filter_keeps_all(s: Seq<char>)
    requires
        forall|i: int|
            0 <= i < s.len() ==> {
                let c = #[trigger] s[i];
                !is_ws(c) && c != '·' && c != '-' && c != ':' && c != '：'
            },
    ensures
        name_key(s) == s,
    decreases s.len(),
{
    reveal_with_fuel(Seq::filter, 1);
    if s.len() > 0 {
        let d = s.drop_last();
        assert forall|i: int| 0 <= i < d.len() implies {
            let c = #[trigger] d[i];
            !is_ws(c) && c != '·' && c != '-' && c != ':' && c != '：'
        } by {
            assert(d[i] == s[i]);
        }
        lemma_filter_keeps_all(d);
        let c = s[s.len() - 1];
        assert(!is_ws(c) && c != '·' && c != '-' && c != ':' && c != '：');
        assert(d.push(s.last()) =~= s);
    }
}

/// Correcting a corrected name changes nothing.
pub proof fn lemma_fuzzy_name_idempotent(ocr: Seq<char>)
    ensures
        fuzzy_name(fuzzy_name(ocr)) == fuzzy_name(ocr),
{
    lemma_fuzzy_name_origin(ocr);
    if fuzzy_name(ocr) != ocr {
        lemma_known_name_kept(fuzzy_name(ocr));
    }
}

} // verus!
