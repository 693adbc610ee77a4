//! Pull statistics of one game: overall and per banner, the number of
//! pulls, of five-star pulls, of five-star pulls that lost the 50/50, and the
//! current pity (pulls since the latest five-star).
use vstd::prelude::*;
use crate::records::GachaRecord;
use crate::text::{chars_of, opt_str, str_eq, string_of};

verus! {

// ---------------------------------------------------------------------------
// Model
// ---------------------------------------------------------------------------

/// Which pulls a count takes in.
pub enum PullKind {
    All,
    FiveStar,
    LostFiveStar,
}

/// `r` belongs to the game and, when a banner is given, to that banner.
pub open spec fn in_scope(r: GachaRecord, game: Seq<char>, banner: Option<Seq<char>>) -> bool {
    &&& r.game_kind@ == game
    &&& match banner {
        Some(b) => r.banner_type@ == b,
        None => true,
    }
}

/// `r` is a pull of the given kind.
pub open spec fn of_kind(r: GachaRecord, kind: PullKind) -> bool {
    match kind {
        PullKind::All => true,
        PullKind::FiveStar => r.star_rating == 5,
        PullKind::LostFiveStar => r.star_rating == 5 && !r.is_won,
    }
}

/// The pulls of a kind within a scope, as a filter.
pub open spec fn selects(game: Seq<char>, banner: Option<Seq<char>>, kind: PullKind) -> spec_fn(
    GachaRecord,
) -> bool {
    |r: GachaRecord| in_scope(r, game, banner) && of_kind(r, kind)
}

/// The pulls within a scope whose id is above `m`, as a filter.
pub open spec fn later_than(game: Seq<char>, banner: Option<Seq<char>>, m: i64) -> spec_fn(
    GachaRecord,
) -> bool {
    |r: GachaRecord| in_scope(r, game, banner) && r.id > m
}

/// Number of pulls of a kind within a scope.
pub open spec fn pull_count(
    rs: Seq<GachaRecord>,
    game: Seq<char>,
    banner: Option<Seq<char>>,
    kind: PullKind,
) -> nat {
    rs.filter(selects(game, banner, kind)).len()
}

/// The largest id among `s`.
pub open spec fn max_id(s: Seq<GachaRecord>) -> Option<i64>
    decreases s.len(),
{
    if s.len() == 0 {
        None
    } else {
        match max_id(s.drop_last()) {
            None => Some(s.last().id),
            Some(m) => Some(
                if m < s.last().id {
                    s.last().id
                } else {
                    m
                },
            ),
        }
    }
}

/// The id of the latest five-star pull within a scope.
pub open spec fn latest_five_star(
    rs: Seq<GachaRecord>,
    game: Seq<char>,
    banner: Option<Seq<char>>,
) -> Option<i64> {
    max_id(rs.filter(selects(game, banner, PullKind::FiveStar)))
}

/// The pity within a scope: the pulls after the latest five-star one, or all
/// pulls when there is none.
pub open spec fn pity(rs: Seq<GachaRecord>, game: Seq<char>, banner: Option<Seq<char>>) -> nat {
    match latest_five_star(rs, game, banner) {
        Some(m) => rs.filter(later_than(game, banner, m)).len(),
        None => pull_count(rs, game, banner, PullKind::All),
    }
}

/// Text order of the history table: code point by code point, a proper
/// prefix first (the byte order of UTF-8).
pub open spec fn text_lt(a: Seq<char>, b: Seq<char>) -> bool
    decreases a.len(),
{
    if a.len() == 0 {
        b.len() > 0
    } else if b.len() == 0 {
        false
    } else if (a[0] as u32) < (b[0] as u32) {
        true
    } else if a[0] == b[0] {
        text_lt(a.drop_first(), b.drop_first())
    } else {
        false
    }
}

/// `ks` is strictly increasing in text order.
pub open spec fn sorted_distinct(ks: Seq<Seq<char>>) -> bool {
    forall|i: int, j: int| 0 <= i < j < ks.len() ==> text_lt(#[trigger] ks[i], #[trigger] ks[j])
}

/// Some pull of the game was made on banner `k`.
pub open spec fn has_banner(rs: Seq<GachaRecord>, game: Seq<char>, k: Seq<char>) -> bool {
    exists|i: int| 0 <= i < rs.len() && #[trigger] rs[i].game_kind@ == game && rs[i].banner_type@ == k
}

/// `ks` lists the banners of the game's pulls, each once, in text order.
pub open spec fn banner_keys(rs: Seq<GachaRecord>, game: Seq<char>, ks: Seq<Seq<char>>) -> bool {
    &&& sorted_distinct(ks)
    &&& forall|k: Seq<char>| ks.contains(k) <==> has_banner(rs, game, k)
}

/// Counts of one banner.
pub struct BannerCounts {
    pub banner_type: String,
    pub total_pulls: i64,
    pub five_star_count: i64,
    pub lost_count: i64,
    pub current_pity: i32,
}

/// Counts of one game, overall and per banner.
pub struct PullCounts {
    pub total_pulls: i64,
    pub five_star_count: i64,
    pub lost_count: i64,
    pub current_pity: i32,
    pub by_banner: Vec<BannerCounts>,
}

/// The counts of `b` are those of its banner within the game.
pub open spec fn banner_counts_match(rs: Seq<GachaRecord>, game: Seq<char>, b: BannerCounts) -> bool {
    let k = Some(b.banner_type@);
    &&& b.total_pulls == pull_count(rs, game, k, PullKind::All)
    &&& b.five_star_count == pull_count(rs, game, k, PullKind::FiveStar)
    &&& b.lost_count == pull_count(rs, game, k, PullKind::LostFiveStar)
    &&& b.current_pity == pity(rs, game, k)
}


// ---------------------------------------------------------------------------
// Text order
// ---------------------------------------------------------------------------

/// No text comes before itself.
pub proof fn lemma_text_lt_irreflexive(a: Seq<char>)
    ensures
        !text_lt(a, a),
    decreases a.len(),
{
    if a.len() > 0 {
        lemma_text_lt_irreflexive(a.drop_first());
    }
}

/// Text order is transitive.
pub proof fn lemma_text_lt_transitive(a: Seq<char>, b: Seq<char>, c: Seq<char>)
    requires
        text_lt(a, b),
        text_lt(b, c),
    ensures
        text_lt(a, c),
    decreases a.len(),
{
    if a.len() > 0 && b.len() > 0 && c.len() > 0 && a[0] == b[0] && b[0] == c[0] {
        lemma_text_lt_transitive(a.drop_first(), b.drop_first(), c.drop_first());
    }
}

/// Of two different texts, one comes before the other.
pub proof fn lemma_text_lt_total(a: Seq<char>, b: Seq<char>)
    requires
        a != b,
    ensures
        text_lt(a, b) || text_lt(b, a),
    decreases a.len(),
{
    if a.len() > 0 && b.len() > 0 && a[0] == b[0] {
        if a.drop_first() == b.drop_first() {
            assert(a == seq![a[0]] + a.drop_first());
            assert(b == seq![b[0]] + b.drop_first());
        }
        lemma_text_lt_total(a.drop_first(), b.drop_first());
    } else if a.len() == 0 && b.len() == 0 {
        assert(a =~= b);
    } else if a.len() > 0 && b.len() > 0 {
        vstd::utf8::char_u32_cast(a[0], a[0] as u32);
        vstd::utf8::char_u32_cast(b[0], b[0] as u32);
    }
}

/// Whether `a` comes before `b` in text order.
fn text_less(a: &Vec<char>, b: &Vec<char>) -> (r: bool)
    ensures
        r == text_lt(a@, b@),
{
    let mut i: usize = 0;
    assert(a@.skip(0) == a@ && b@.skip(0) == b@);
    while i < a.len() && i < b.len()
        invariant
            i <= a.len(),
            i <= b.len(),
            text_lt(a@, b@) == text_lt(a@.skip(i as int), b@.skip(i as int)),
        decreases a.len() - i,
    {
        let x = a[i];
        let y = b[i];
        assert(a@.skip(i as int)[0] == x && b@.skip(i as int)[0] == y);
        if (x as u32) < (y as u32) {
            return true;
        }
        if x != y {
            return false;
        }
        assert(a@.skip(i as int).drop_first() == a@.skip(i + 1));
        assert(b@.skip(i as int).drop_first() == b@.skip(i + 1));
        i = i + 1;
    }
    a.len() == i && i < b.len()
}

// ---------------------------------------------------------------------------
// Counting
// ---------------------------------------------------------------------------

proof fn lemma_filter_step(s: Seq<GachaRecord>, p: spec_fn(GachaRecord) -> bool, i: int)
    requires
        0 <= i < s.len(),
    ensures
        s.take(i + 1).filter(p) == if p(s[i]) {
            s.take(i).filter(p).push(s[i])
        } else {
            s.take(i).filter(p)
        },
{
    reveal_with_fuel(Seq::filter, 1);
    assert(s.take(i + 1).drop_last() == s.take(i));
}

proof fn lemma_count_step(
    s: Seq<GachaRecord>,
    game: Seq<char>,
    banner: Option<Seq<char>>,
    kind: PullKind,
    i: int,
)
    requires
        0 <= i < s.len(),
    ensures
        s.take(i + 1).filter(selects(game, banner, kind)).len() == s.take(i).filter(
            selects(game, banner, kind),
        ).len() + if in_scope(s[i], game, banner) && of_kind(s[i], kind) {
            1int
        } else {
            0int
        },
{
    lemma_filter_step(s, selects(game, banner, kind), i);
}

proof fn lemma_later_step(
    s: Seq<GachaRecord>,
    game: Seq<char>,
    banner: Option<Seq<char>>,
    m: i64,
    i: int,
)
    requires
        0 <= i < s.len(),
    ensures
        s.take(i + 1).filter(later_than(game, banner, m)).len() == s.take(i).filter(
            later_than(game, banner, m),
        ).len() + if in_scope(s[i], game, banner) && s[i].id > m {
            1int
        } else {
            0int
        },
{
    lemma_filter_step(s, later_than(game, banner, m), i);
}

fn matches_scope(r: &GachaRecord, game: &str, banner: Option<&str>) -> (b: bool)
    ensures
        b == in_scope(*r, game@, opt_str(banner)),
{
    if !str_eq(r.game_kind.as_str(), game) {
        return false;
    }
    match banner {
        Some(bt) => str_eq(r.banner_type.as_str(), bt),
        None => true,
    }
}

/// Overall counts of one scope: pulls, five-star pulls, lost five-star pulls
/// and the pity.
fn scope_counts(records: &Vec<GachaRecord>, game: &str, banner: Option<&str>) -> (r: (
    i64,
    i64,
    i64,
    i32,
))
    requires
        records.len() <= i32::MAX,
    ensures
        r.0 == pull_count(records@, game@, opt_str(banner), PullKind::All),
        r.1 == pull_count(records@, game@, opt_str(banner), PullKind::FiveStar),
        r.2 == pull_count(records@, game@, opt_str(banner), PullKind::LostFiveStar),
        r.3 == pity(records@, game@, opt_str(banner)),
{
    let ghost rs = records@;
    let ghost g = game@;
    let ghost bv = opt_str(banner);
    let ghost p_all = selects(g, bv, PullKind::All);
    let ghost p_five = selects(g, bv, PullKind::FiveStar);
    let ghost p_lost = selects(g, bv, PullKind::LostFiveStar);
    let mut total: i64 = 0;
    let mut five: i64 = 0;
    let mut lost: i64 = 0;
    let mut latest: Option<i64> = None;
    let mut i: usize = 0;
    while i < records.len()
        invariant
            i <= records.len() <= i32::MAX,
            rs == records@,
            g == game@,
            bv == opt_str(banner),
            p_all == selects(g, bv, PullKind::All),
            p_five == selects(g, bv, PullKind::FiveStar),
            p_lost == selects(g, bv, PullKind::LostFiveStar),
            total == rs.take(i as int).filter(p_all).len(),
            five == rs.take(i as int).filter(p_five).len(),
            lost == rs.take(i as int).filter(p_lost).len(),
            latest == max_id(rs.take(i as int).filter(p_five)),
            total <= i,
            five <= i,
            lost <= i,
        decreases records.len() - i,
    {
        let r = &records[i];
        proof {
            lemma_count_step(rs, g, bv, PullKind::All, i as int);
            lemma_count_step(rs, g, bv, PullKind::FiveStar, i as int);
            lemma_count_step(rs, g, bv, PullKind::LostFiveStar, i as int);
            lemma_filter_step(rs, p_five, i as int);
            let f = rs.take(i as int).filter(p_five);
            assert(f.push(rs[i as int]).drop_last() == f);
        }
        if matches_scope(r, game, banner) {
            total = total + 1;
            if r.star_rating == 5 {
                five = five + 1;
                latest = match latest {
                    None => Some(r.id),
                    Some(m) => Some(
                        if m < r.id {
                            r.id
                        } else {
                            m
                        },
                    ),
                };
                if !r.is_won {
                    lost = lost + 1;
                }
            }
        }
        i = i + 1;
    }
    assert(rs.take(records.len() as int) == rs);
    let pity_count: i32 = match latest {
        None => total as i32,
        Some(m) => {
            let ghost p_after = later_than(g, bv, m);
            let mut after: i32 = 0;
            let mut j: usize = 0;
            while j < records.len()
                invariant
                    j <= records.len() <= i32::MAX,
                    rs == records@,
                    g == game@,
                    bv == opt_str(banner),
                    p_after == later_than(g, bv, m),
                    after == rs.take(j as int).filter(p_after).len(),
                    after <= j,
                decreases records.len() - j,
            {
                let r = &records[j];
                proof {
                    lemma_later_step(rs, g, bv, m, j as int);
                }
                if matches_scope(r, game, banner) && r.id > m {
                    after = after + 1;
                }
                j = j + 1;
            }
            after
        },
    };
    (total, five, lost, pity_count)
}

// ---------------------------------------------------------------------------
// Banner keys
// ---------------------------------------------------------------------------

/// The banners of the game's pulls, each once, in text order.
fn banner_list(records: &Vec<GachaRecord>, game: &str) -> (ks: Vec<Vec<char>>)
    ensures
        banner_keys(records@, game@, ks@.map_values(|v: Vec<char>| v@)),
{
    let ghost rs = records@;
    let mut ks: Vec<Vec<char>> = Vec::new();
    let mut i: usize = 0;
    while i < records.len()
        invariant
            i <= records.len(),
            rs == records@,
            banner_keys(rs.take(i as int), game@, ks@.map_values(|v: Vec<char>| v@)),
        decreases records.len() - i,
    {
        let ghost old_ks = ks@.map_values(|v: Vec<char>| v@);
        let ghost prefix = rs.take(i as int);
        let ghost next = rs.take(i + 1);
        assert forall|k: Seq<char>| has_banner(next, game@, k) <==> (has_banner(prefix, game@, k)
            || (rs[i as int].game_kind@ == game@ && rs[i as int].banner_type@ == k)) by {
            if has_banner(next, game@, k) {
                let x = choose|x: int|
                    0 <= x < next.len() && #[trigger] next[x].game_kind@ == game@
                        && next[x].banner_type@ == k;
                if x < i {
                    assert(prefix[x] == next[x]);
                }
            }
            if has_banner(prefix, game@, k) {
                let x = choose|x: int|
                    0 <= x < prefix.len() && #[trigger] prefix[x].game_kind@ == game@
                        && prefix[x].banner_type@ == k;
                assert(next[x] == prefix[x]);
            }
            if rs[i as int].game_kind@ == game@ && rs[i as int].banner_type@ == k {
                assert(next[i as int] == rs[i as int]);
            }
        }
        let r = &records[i];
        if str_eq(r.game_kind.as_str(), game) {
            let bk = chars_of(r.banner_type.as_str());
            let mut j: usize = 0;
            while j < ks.len() && text_less(&ks[j], &bk)
                invariant
                    j <= ks.len(),
                    old_ks == ks@.map_values(|v: Vec<char>| v@),
                    forall|x: int| 0 <= x < j ==> text_lt(#[trigger] old_ks[x], bk@),
                decreases ks.len() - j,
            {
                j = j + 1;
            }
            if j < ks.len() && !text_less(&bk, &ks[j]) {
                proof {
                    assert(old_ks[j as int] == ks@[j as int]@);
                    if old_ks[j as int] != bk@ {
                        lemma_text_lt_total(old_ks[j as int], bk@);
                    }
                    assert(old_ks.contains(bk@));
                }
            } else {
                proof {
                    if j < ks.len() {
                        assert(old_ks[j as int] == ks@[j as int]@);
                        if old_ks[j as int] != bk@ {
                            lemma_text_lt_total(old_ks[j as int], bk@);
                        } else {
                            lemma_text_lt_irreflexive(bk@);
                        }
                    }
                }
                ks.insert(j, bk);
                proof {
                    let new_ks = ks@.map_values(|v: Vec<char>| v@);
                    assert(new_ks =~= old_ks.insert(j as int, bk@));
                    assert forall|x: int, y: int| 0 <= x < y < new_ks.len() implies text_lt(
                        #[trigger] new_ks[x],
                        #[trigger] new_ks[y],
                    ) by {
                        if y < j {
                        } else if y == j {
                        } else if x < j {
                            // new_ks[x] < bk < old_ks[j] <= new_ks[y]
                            if y - 1 > j {
                                lemma_text_lt_transitive(bk@, old_ks[j as int], old_ks[y - 1]);
                            }
                            lemma_text_lt_transitive(old_ks[x], bk@, old_ks[y - 1]);
                        } else if x == j {
                            if y - 1 > j {
                                lemma_text_lt_transitive(bk@, old_ks[j as int], old_ks[y - 1]);
                            }
                        } else {
                            assert(new_ks[x] == old_ks[x - 1]);
                            assert(new_ks[y] == old_ks[y - 1]);
                        }
                    }
                    assert forall|k: Seq<char>| new_ks.contains(k) <==> (old_ks.contains(k) || k
                        == bk@) by {
                        if new_ks.contains(k) {
                            let x = choose|x: int| 0 <= x < new_ks.len() && new_ks[x] == k;
                            if x < j {
                                assert(old_ks[x] == k);
                            } else if x > j {
                                assert(old_ks[x - 1] == k);
                            }
                        }
                        if old_ks.contains(k) {
                            let x = choose|x: int| 0 <= x < old_ks.len() && old_ks[x] == k;
                            if x < j {
                                assert(new_ks[x] == k);
                            } else {
                                assert(new_ks[x + 1] == k);
                            }
                        }
                        if k == bk@ {
                            assert(new_ks[j as int] == k);
                        }
                    }
                }
            }
        }
        i = i + 1;
    }
    assert(rs.take(records.len() as int) == rs);
    ks
}

/// Counts the pulls of `game_kind` among `records`, overall and per banner
/// (banners in text order).
pub fn compute_pull_counts(records: &Vec<GachaRecord>, game_kind: &str) -> (r: PullCounts)
    requires
        records.len() <= i32::MAX,
    ensures
        r.total_pulls == pull_count(records@, game_kind@, None, PullKind::All),
        r.five_star_count == pull_count(records@, game_kind@, None, PullKind::FiveStar),
        r.lost_count == pull_count(records@, game_kind@, None, PullKind::LostFiveStar),
        r.current_pity == pity(records@, game_kind@, None),
        banner_keys(
            records@,
            game_kind@,
            r.by_banner@.map_values(|b: BannerCounts| b.banner_type@),
        ),
        forall|x: int|
            0 <= x < r.by_banner.len() ==> banner_counts_match(
                records@,
                game_kind@,
                #[trigger] r.by_banner@[x],
            ),
{
    let (total, five, lost, pity_all) = scope_counts(records, game_kind, None);
    let ks = banner_list(records, game_kind);
    let ghost kv = ks@.map_values(|v: Vec<char>| v@);
    let mut by_banner: Vec<BannerCounts> = Vec::new();
    let mut x: usize = 0;
    while x < ks.len()
        invariant
            x <= ks.len(),
            records.len() <= i32::MAX,
            kv == ks@.map_values(|v: Vec<char>| v@),
            by_banner.len() == x,
            forall|y: int| 0 <= y < x ==> (#[trigger] by_banner@[y]).banner_type@ == kv[y],
            forall|y: int|
                0 <= y < x ==> banner_counts_match(records@, game_kind@, #[trigger] by_banner@[y]),
        decreases ks.len() - x,
    {
        let name = string_of(&ks[x]);
        let (t, f, l, p) = scope_counts(records, game_kind, Some(name.as_str()));
        by_banner.push(
            BannerCounts {
                banner_type: name,
                total_pulls: t,
                five_star_count: f,
                lost_count: l,
                current_pity: p,
            },
        );
        x = x + 1;
    }
    assert(by_banner@.map_values(|b: BannerCounts| b.banner_type@) =~= kv);
    PullCounts {
        total_pulls: total,
        five_star_count: five,
        lost_count: lost,
        current_pity: pity_all,
        by_banner,
    }
}

// ---------------------------------------------------------------------------
// Laws
// ---------------------------------------------------------------------------

/// Sum over the banners `ks` of the counts of a kind.
pub open spec fn banner_sum(
    rs: Seq<GachaRecord>,
    game: Seq<char>,
    ks: Seq<Seq<char>>,
    kind: PullKind,
) -> nat
    decreases ks.len(),
{
    if ks.len() == 0 {
        0
    } else {
        banner_sum(rs, game, ks.drop_last(), kind) + pull_count(rs, game, Some(ks.last()), kind)
    }
}

/// How many of the banners `ks` count the pull `x`.
spec fn hits(x: GachaRecord, game: Seq<char>, ks: Seq<Seq<char>>, kind: PullKind) -> nat
    decreases ks.len(),
{
    if ks.len() == 0 {
        0
    } else {
        hits(x, game, ks.drop_last(), kind) + if in_scope(x, game, Some(ks.last())) && of_kind(
            x,
            kind,
        ) {
            1nat
        } else {
            0nat
        }
    }
}

proof fn lemma_filter_subset(
    s: Seq<GachaRecord>,
    p: spec_fn(GachaRecord) -> bool,
    q: spec_fn(GachaRecord) -> bool,
)
    requires
        forall|x: GachaRecord| #[trigger] p(x) ==> q(x),
    ensures
        s.filter(p).len() <= s.filter(q).len(),
    decreases s.len(),
{
    reveal_with_fuel(Seq::filter, 1);
    if s.len() > 0 {
        lemma_filter_subset(s.drop_last(), p, q);
    }
}

proof fn lemma_count_push(
    s: Seq<GachaRecord>,
    game: Seq<char>,
    banner: Option<Seq<char>>,
    kind: PullKind,
    x: GachaRecord,
)
    ensures
        pull_count(s.push(x), game, banner, kind) == pull_count(s, game, banner, kind) + if in_scope(
            x,
            game,
            banner,
        ) && of_kind(x, kind) {
            1nat
        } else {
            0nat
        },
{
    reveal_with_fuel(Seq::filter, 1);
    assert(s.push(x).drop_last() == s);
}

proof fn lemma_banner_sum_push(
    s: Seq<GachaRecord>,
    game: Seq<char>,
    ks: Seq<Seq<char>>,
    kind: PullKind,
    x: GachaRecord,
)
    ensures
        banner_sum(s.push(x), game, ks, kind) == banner_sum(s, game, ks, kind) + hits(
            x,
            game,
            ks,
            kind,
        ),
    decreases ks.len(),
{
    if ks.len() > 0 {
        lemma_banner_sum_push(s, game, ks.drop_last(), kind, x);
        lemma_count_push(s, game, Some(ks.last()), kind, x);
    }
}

proof fn lemma_banner_sum_empty(game: Seq<char>, ks: Seq<Seq<char>>, kind: PullKind)
    ensures
        banner_sum(Seq::empty(), game, ks, kind) == 0,
    decreases ks.len(),
{
    reveal_with_fuel(Seq::filter, 1);
    if ks.len() > 0 {
        lemma_banner_sum_empty(game, ks.drop_last(), kind);
    }
}

proof fn lemma_hits_none(x: GachaRecord, game: Seq<char>, ks: Seq<Seq<char>>, kind: PullKind)
    requires
        !ks.contains(x.banner_type@) || x.game_kind@ != game,
    ensures
        hits(x, game, ks, kind) == 0,
    decreases ks.len(),
{
    if ks.len() > 0 {
        if ks.drop_last().contains(x.banner_type@) {
            let i = choose|i: int| 0 <= i < ks.drop_last().len() && ks.drop_last()[i] == x.banner_type@;
            assert(ks[i] == x.banner_type@);
        }
        if x.game_kind@ == game {
            assert(ks.last() != x.banner_type@) by {
                if ks.last() == x.banner_type@ {
                    assert(ks[ks.len() - 1] == x.banner_type@);
                }
            }
        }
        lemma_hits_none(x, game, ks.drop_last(), kind);
    }
}

proof fn lemma_hits_once(x: GachaRecord, game: Seq<char>, ks: Seq<Seq<char>>, kind: PullKind)
    requires
        forall|i: int, j: int| 0 <= i < j < ks.len() ==> ks[i] != ks[j],
        ks.contains(x.banner_type@),
        x.game_kind@ == game,
    ensures
        hits(x, game, ks, kind) == if of_kind(x, kind) {
            1nat
        } else {
            0nat
        },
    decreases ks.len(),
{
    let b = x.banner_type@;
    let d = ks.drop_last();
    if ks.last() == b {
        if d.contains(b) {
            let i = choose|i: int| 0 <= i < d.len() && d[i] == b;
            assert(ks[i] == ks[ks.len() - 1]);
        }
        lemma_hits_none(x, game, d, kind);
    } else {
        let i = choose|i: int| 0 <= i < ks.len() && ks[i] == b;
        assert(i < ks.len() - 1);
        assert(d[i] == b);
        lemma_hits_once(x, game, d, kind);
    }
}

proof fn lemma_banner_sum_covers(
    rs: Seq<GachaRecord>,
    game: Seq<char>,
    ks: Seq<Seq<char>>,
    kind: PullKind,
)
    requires
        forall|i: int, j: int| 0 <= i < j < ks.len() ==> ks[i] != ks[j],
        forall|i: int|
            0 <= i < rs.len() && (#[trigger] rs[i]).game_kind@ == game ==> ks.contains(
                rs[i].banner_type@,
            ),
    ensures
        banner_sum(rs, game, ks, kind) == pull_count(rs, game, None, kind),
    decreases rs.len(),
{
    if rs.len() == 0 {
        lemma_banner_sum_empty(game, ks, kind);
        assert(rs == Seq::<GachaRecord>::empty());
        reveal_with_fuel(Seq::filter, 1);
    } else {
        let s = rs.drop_last();
        let x = rs.last();
        assert(rs == s.push(x));
        assert forall|i: int| 0 <= i < s.len() && (#[trigger] s[i]).game_kind@ == game implies ks.contains(
            s[i].banner_type@,
        ) by {
            assert(rs[i] == s[i]);
        }
        lemma_banner_sum_covers(s, game, ks, kind);
        lemma_banner_sum_push(s, game, ks, kind, x);
        lemma_count_push(s, game, None, kind, x);
        if x.game_kind@ == game {
            assert(rs[rs.len() - 1] == x);
            lemma_hits_once(x, game, ks, kind);
        } else {
            lemma_hits_none(x, game, ks, kind);
        }
    }
}

/// Per game, and per banner too: the lost five-star pulls are among the
/// five-star pulls, which are among all pulls; the pity never exceeds the
/// number of pulls.
pub proof fn lemma_counts_ordered(rs: Seq<GachaRecord>, game: Seq<char>, banner: Option<Seq<char>>)
    ensures
        pull_count(rs, game, banner, PullKind::LostFiveStar) <= pull_count(
            rs,
            game,
            banner,
            PullKind::FiveStar,
        ),
        pull_count(rs, game, banner, PullKind::FiveStar) <= pull_count(
            rs,
            game,
            banner,
            PullKind::All,
        ),
        pity(rs, game, banner) <= pull_count(rs, game, banner, PullKind::All),
{
    lemma_filter_subset(
        rs,
        selects(game, banner, PullKind::LostFiveStar),
        selects(game, banner, PullKind::FiveStar),
    );
    lemma_filter_subset(
        rs,
        selects(game, banner, PullKind::FiveStar),
        selects(game, banner, PullKind::All),
    );
    if let Some(m) = latest_five_star(rs, game, banner) {
        lemma_filter_subset(rs, later_than(game, banner, m), selects(game, banner, PullKind::All));
    }
}

/// Without a five-star pull, the pity is the number of pulls.
pub proof fn lemma_pity_without_five_star(
    rs: Seq<GachaRecord>,
    game: Seq<char>,
    banner: Option<Seq<char>>,
)
    requires
        pull_count(rs, game, banner, PullKind::FiveStar) == 0,
    ensures
        pity(rs, game, banner) == pull_count(rs, game, banner, PullKind::All),
{
    let f = rs.filter(selects(game, banner, PullKind::FiveStar));
    assert(f.len() == 0);
    assert(f == Seq::<GachaRecord>::empty());
}

/// The per-banner counts of the banners of a game's pulls add up to the
/// game's counts, for each kind of pull.
pub proof fn lemma_banner_counts_add_up(
    rs: Seq<GachaRecord>,
    game: Seq<char>,
    ks: Seq<Seq<char>>,
    kind: PullKind,
)
    requires
        banner_keys(rs, game, ks),
    ensures
        banner_sum(rs, game, ks, kind) == pull_count(rs, game, None, kind),
{
    assert forall|i: int, j: int| 0 <= i < j < ks.len() implies ks[i] != ks[j] by {
        lemma_text_lt_irreflexive(ks[i]);
    }
    assert forall|i: int|
        0 <= i < rs.len() && (#[trigger] rs[i]).game_kind@ == game implies ks.contains(
        rs[i].banner_type@,
    ) by {
        assert(has_banner(rs, game, rs[i].banner_type@));
    }
    lemma_banner_sum_covers(rs, game, ks, kind);
}

} // verus!
