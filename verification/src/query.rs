//! The SQL that lists one page of a game's records: its filter, its order,
//! and its page window. The queries are run by the caller; this module
//! decides their text and their parameters.
use vstd::prelude::*;
use crate::text::{
    decimal, decimal_chars, extend_chars, extend_vec, occurs_at, opt_str, str_eq, string_of,
};

verus! {

/// A parameter bound to a `?N` placeholder.
#[derive(Debug, Clone, PartialEq, Eq)]
pub enum SqlValue {
    Text(String),
    Integer(i64),
}

/// The model of a parameter.
pub enum SqlArg {
    Text(Seq<char>),
    Integer(i64),
}

impl View for SqlValue {
    type V = SqlArg;

    open spec fn view(&self) -> SqlArg {
        match self {
            SqlValue::Text(s) => SqlArg::Text(s@),
            SqlValue::Integer(i) => SqlArg::Integer(*i),
        }
    }
}

/// The two statements that list a page of records, with their parameters.
#[derive(Debug, Clone, PartialEq, Eq)]
pub struct RecordsQuery {
    /// Counts the records that pass the filter.
    pub count_sql: String,
    pub count_params: Vec<SqlValue>,
    /// Selects the records of the page.
    pub select_sql: String,
    pub select_params: Vec<SqlValue>,
    /// The page size and the number of records before the page.
    pub limit: i64,
    pub offset: i64,
}

/// The page number: 1 when absent, and at least 1.
pub open spec fn page_number(page: Option<i64>) -> int {
    let p = match page {
        Some(p) => p as int,
        None => 1,
    };
    if p < 1 {
        1
    } else {
        p
    }
}

/// The page size: 20 when absent, within 1 to 200.
pub open spec fn page_limit(page_size: Option<i64>) -> int {
    let s = match page_size {
        Some(s) => s as int,
        None => 20,
    };
    if s < 1 {
        1
    } else if s > 200 {
        200
    } else {
        s
    }
}

/// The number of records before the page.
pub open spec fn page_offset(page: Option<i64>, page_size: Option<i64>) -> int {
    (page_number(page) - 1) * page_limit(page_size)
}

/// The banner filter in force: a non-empty banner other than `全部` (all).
pub open spec fn banner_filter(banner: Option<Seq<char>>) -> Option<Seq<char>> {
    match banner {
        Some(b) => if b.len() > 0 && b != "全部"@ {
            Some(b)
        } else {
            None
        },
        None => None,
    }
}

/// The star filter in force: a positive rating.
pub open spec fn star_filter(star: Option<i32>) -> Option<i32> {
    match star {
        Some(s) => if s > 0 {
            Some(s)
        } else {
            None
        },
        None => None,
    }
}

/// Parameters of the filter, in placeholder order: the game, the banner
/// pattern `%banner%`, the star rating.
pub open spec fn filter_args(game: Seq<char>, banner: Option<Seq<char>>, star: Option<i32>) -> Seq<
    SqlArg,
> {
    let g = seq![SqlArg::Text(game)];
    let b = match banner {
        Some(b) => seq![SqlArg::Text(seq!['%'] + b + seq!['%'])],
        None => Seq::empty(),
    };
    let s = match star {
        Some(s) => seq![SqlArg::Integer(s as i64)],
        None => Seq::empty(),
    };
    g + b + s
}

/// The `WHERE` condition: the game, then the banner and star conditions in
/// force, joined by ` AND `, each with the placeholder of its parameter.
pub open spec fn where_clause(banner: Option<Seq<char>>, star: Option<i32>) -> Seq<char> {
    let g = "game_kind = ?1"@;
    let b = match banner {
        Some(_) => " AND banner_type LIKE ?"@ + decimal(2),
        None => Seq::empty(),
    };
    let star_index: nat = if banner is Some {
        3
    } else {
        2
    };
    let s = match star {
        Some(_) => " AND star_rating = ?"@ + decimal(star_index),
        None => Seq::empty(),
    };
    g + b + s
}

/// The `ORDER BY` clause for the requested sorting: by star rating when the
/// key is `star`, else by date; ascending when the order is `asc`.
pub open spec fn order_clause(sort_by: Option<Seq<char>>, sort_order: Option<Seq<char>>) -> Seq<
    char,
> {
    if sort_by == Some("star"@) && sort_order == Some("asc"@) {
        "star_rating ASC, record_date DESC"@
    } else if sort_by == Some("star"@) {
        "star_rating DESC, record_date DESC"@
    } else if sort_order == Some("asc"@) {
        "record_date ASC, id ASC"@
    } else {
        "record_date DESC, id DESC"@
    }
}

/// The counting statement.
pub open spec fn count_statement(cond: Seq<char>) -> Seq<char> {
    "SELECT COUNT(*) FROM gacha_records WHERE "@ + cond
}

/// The selecting statement; `n` is the number of filter parameters, after
/// which come the limit and the offset.
pub open spec fn select_statement(cond: Seq<char>, order: Seq<char>, n: nat) -> Seq<char> {
    "SELECT id, game_kind, item_name, item_type, star_rating, record_date, is_won, banner_type\n             FROM gacha_records\n             WHERE "@
        + cond + "\n             ORDER BY "@ + order + "\n             LIMIT ?"@ + decimal(n + 1)
        + " OFFSET ?"@ + decimal(n + 2)
}

proof fn lemma_window(page: int, limit: int)
    by (nonlinear_arith)
    requires
        page >= 1,
        limit >= 1,
    ensures
        (page - 1) * limit >= 0,
        ((page - 1) * limit) % limit == 0,
{
}

/// The sort key `star` orders by star rating first, descending unless the
/// order asked is `asc`, and by date (latest first) among equal ratings; any
/// other key, or none, orders by date and then id, ascending exactly when
/// the order asked is `asc`.
pub proof fn lemma_sort_orders(sort_by: Option<Seq<char>>, sort_order: Option<Seq<char>>)
    ensures
        sort_by == Some("star"@) && sort_order == Some("asc"@) ==> order_clause(sort_by, sort_order)
            == "star_rating ASC, record_date DESC"@,
        sort_by == Some("star"@) && sort_order != Some("asc"@) ==> order_clause(sort_by, sort_order)
            == "star_rating DESC, record_date DESC"@,
        sort_by != Some("star"@) && sort_order == Some("asc"@) ==> order_clause(sort_by, sort_order)
            == "record_date ASC, id ASC"@,
        sort_by != Some("star"@) && sort_order != Some("asc"@) ==> order_clause(sort_by, sort_order)
            == "record_date DESC, id DESC"@,
{
}

/// The listing orders its page by the clause of [`lemma_sort_orders`]: the
/// selecting statement holds ` ORDER BY `, then that clause, then the page
/// window.
pub proof fn lemma_select_orders_by(cond: Seq<char>, order: Seq<char>, n: nat)
    ensures
        exists|i: int|
            occurs_at(
                select_statement(cond, order, n),
                "\n             ORDER BY "@ + order + "\n             LIMIT ?"@,
                i,
            ),
{
    let head = "SELECT id, game_kind, item_name, item_type, star_rating, record_date, is_won, banner_type\n             FROM gacha_records\n             WHERE "@
        + cond;
    let mid = "\n             ORDER BY "@ + order + "\n             LIMIT ?"@;
    let tail = decimal(n + 1) + " OFFSET ?"@ + decimal(n + 2);
    let s = select_statement(cond, order, n);
    assert(s =~= head + mid + tail);
    assert(s.subrange(head.len() as int, head.len() + mid.len() as int) =~= mid);
    assert(occurs_at(s, mid, head.len() as int));
}

/// Consecutive pages are adjacent: page `p + 1` starts where page `p`
/// (of the same size) ends.
pub proof fn lemma_pages_adjacent(page: i64, page_size: Option<i64>)
    requires
        1 <= page < i64::MAX,
    ensures
        page_offset(Some((page + 1) as i64), page_size) == page_offset(Some(page), page_size)
            + page_limit(page_size),
{
    let l = page_limit(page_size);
    assert(page * l == (page - 1) * l + l) by (nonlinear_arith);
}

fn text_arg(s: &str) -> (v: SqlValue)
    ensures
        v@ == SqlArg::Text(s@),
{
    let mut c: Vec<char> = Vec::new();
    extend_chars(&mut c, s);
    SqlValue::Text(string_of(&c))
}

fn copy_values(vs: &Vec<SqlValue>) -> (r: Vec<SqlValue>)
    ensures
        r@.map_values(|v: SqlValue| v@) == vs@.map_values(|v: SqlValue| v@),
{
    let mut r: Vec<SqlValue> = Vec::new();
    let mut i: usize = 0;
    while i < vs.len()
        invariant
            i <= vs.len(),
            r@.map_values(|v: SqlValue| v@) == vs@.take(i as int).map_values(|v: SqlValue| v@),
        decreases vs.len() - i,
    {
        let c = match &vs[i] {
            SqlValue::Text(s) => SqlValue::Text(s.clone()),
            SqlValue::Integer(n) => SqlValue::Integer(*n),
        };
        let ghost before = r@.map_values(|v: SqlValue| v@);
        r.push(c);
        assert(r@.map_values(|v: SqlValue| v@) =~= before.push(vs@[i as int]@));
        assert(vs@.take(i + 1).map_values(|v: SqlValue| v@) =~= vs@.take(i as int).map_values(
            |v: SqlValue| v@,
        ).push(vs@[i as int]@));
        i = i + 1;
    }
    assert(vs@.take(vs.len() as int) == vs@);
    r
}

fn opt_eq(o: Option<&str>, lit: &str) -> (r: bool)
    ensures
        r == (opt_str(o) == Some(lit@)),
{
    match o {
        Some(s) => str_eq(s, lit),
        None => false,
    }
}

/// Plans the listing of one page of `game_kind`'s records: filtered by
/// banner (substring) and star rating, sorted as requested, `page_size`
/// records (20 by default, within 1 to 200) from page `page` (1 by default,
/// at least 1).
pub fn plan_records_query(
    game_kind: &str,
    page: Option<i64>,
    page_size: Option<i64>,
    banner: Option<&str>,
    star: Option<i32>,
    sort_by: Option<&str>,
    sort_order: Option<&str>,
) -> (q: RecordsQuery)
    requires
        page_offset(page, page_size) <= i64::MAX,
    ensures
        q.limit == page_limit(page_size),
        q.offset == page_offset(page, page_size),
        1 <= q.limit <= 200,
        0 <= q.offset,
        q.offset % q.limit == 0,
        q.count_params@.map_values(|v: SqlValue| v@) == filter_args(
            game_kind@,
            banner_filter(opt_str(banner)),
            star_filter(star),
        ),
        q.select_params@.map_values(|v: SqlValue| v@) == filter_args(
            game_kind@,
            banner_filter(opt_str(banner)),
            star_filter(star),
        ) + seq![SqlArg::Integer(q.limit), SqlArg::Integer(q.offset)],
        q.count_sql@ == count_statement(
            where_clause(banner_filter(opt_str(banner)), star_filter(star)),
        ),
        q.select_sql@ == select_statement(
            where_clause(banner_filter(opt_str(banner)), star_filter(star)),
            order_clause(opt_str(sort_by), opt_str(sort_order)),
            filter_args(game_kind@, banner_filter(opt_str(banner)), star_filter(star)).len(),
        ),
{
    let page_num: i64 = match page {
        Some(p) => if p < 1 {
            1
        } else {
            p
        },
        None => 1,
    };
    let raw_size: i64 = match page_size {
        Some(s) => s,
        None => 20,
    };
    let limit: i64 = if raw_size < 1 {
        1
    } else if raw_size > 200 {
        200
    } else {
        raw_size
    };
    let offset: i64 = (page_num - 1) * limit;
    proof {
        lemma_window(page_num as int, limit as int);
    }

    let ghost bf = banner_filter(opt_str(banner));
    let ghost sf = star_filter(star);
    let mut params: Vec<SqlValue> = Vec::new();
    let mut cond: Vec<char> = Vec::new();
    extend_chars(&mut cond, "game_kind = ?1");
    params.push(text_arg(game_kind));
    let ghost g_part = "game_kind = ?1"@;
    let ghost args0 = params@.map_values(|v: SqlValue| v@);
    assert(args0 =~= seq![SqlArg::Text(game_kind@)]);

    let mut has_banner = false;
    match banner {
        Some(b) => {
            if !b.is_empty() && !str_eq(b, "全部") {
                let idx = decimal_chars((params.len() + 1) as u64);
                extend_chars(&mut cond, " AND banner_type LIKE ?");
                extend_vec(&mut cond, &idx);
                let mut pat: Vec<char> = Vec::new();
                pat.push('%');
                extend_chars(&mut pat, b);
                pat.push('%');
                assert(pat@ =~= seq!['%'] + b@ + seq!['%']);
                let ghost before = params@.map_values(|v: SqlValue| v@);
                let arg = SqlValue::Text(string_of(&pat));
                params.push(arg);
                assert(params@.map_values(|v: SqlValue| v@) =~= before.push(
                    SqlArg::Text(seq!['%'] + b@ + seq!['%']),
                ));
                has_banner = true;
            }
        },
        None => {},
    }
    assert(has_banner == bf is Some);
    let ghost cond_b = cond@;
    let ghost args_b = params@.map_values(|v: SqlValue| v@);
    match star {
        Some(s) => {
            if s > 0 {
                let idx = decimal_chars((params.len() + 1) as u64);
                extend_chars(&mut cond, " AND star_rating = ?");
                extend_vec(&mut cond, &idx);
                let ghost before = params@.map_values(|v: SqlValue| v@);
                params.push(SqlValue::Integer(s as i64));
                assert(params@.map_values(|v: SqlValue| v@) =~= before.push(
                    SqlArg::Integer(s as i64),
                ));
            }
        },
        None => {},
    }
    assert(params@.map_values(|v: SqlValue| v@) =~= filter_args(game_kind@, bf, sf));
    assert(cond@ =~= where_clause(bf, sf));

    let order = if opt_eq(sort_by, "star") && opt_eq(sort_order, "asc") {
        "star_rating ASC, record_date DESC"
    } else if opt_eq(sort_by, "star") {
        "star_rating DESC, record_date DESC"
    } else if opt_eq(sort_order, "asc") {
        "record_date ASC, id ASC"
    } else {
        "record_date DESC, id DESC"
    };

    let mut count_sql: Vec<char> = Vec::new();
    extend_chars(&mut count_sql, "SELECT COUNT(*) FROM gacha_records WHERE ");
    extend_vec(&mut count_sql, &cond);

    let n = params.len();
    let limit_idx = decimal_chars((n + 1) as u64);
    let offset_idx = decimal_chars((n + 2) as u64);
    let mut select_sql: Vec<char> = Vec::new();
    extend_chars(
        &mut select_sql,
        "SELECT id, game_kind, item_name, item_type, star_rating, record_date, is_won, banner_type\n             FROM gacha_records\n             WHERE ",
    );
    extend_vec(&mut select_sql, &cond);
    extend_chars(&mut select_sql, "\n             ORDER BY ");
    extend_chars(&mut select_sql, order);
    extend_chars(&mut select_sql, "\n             LIMIT ?");
    extend_vec(&mut select_sql, &limit_idx);
    extend_chars(&mut select_sql, " OFFSET ?");
    extend_vec(&mut select_sql, &offset_idx);

    let count_params = copy_values(&params);
    let mut select_params = params;
    let ghost args = select_params@.map_values(|v: SqlValue| v@);
    select_params.push(SqlValue::Integer(limit));
    select_params.push(SqlValue::Integer(offset));
    assert(select_params@.map_values(|v: SqlValue| v@) =~= args + seq![
        SqlArg::Integer(limit),
        SqlArg::Integer(offset),
    ]);
    RecordsQuery {
        count_sql: string_of(&count_sql),
        count_params,
        select_sql: string_of(&select_sql),
        select_params,
        limit,
        offset,
    }
}

} // verus!
