//! Normalisation of the record dates that OCR reads off a warp history
//! screenshot, such as `2026·05·2723：05：36`, into `2026-05-27 23:05:36`.
use vstd::prelude::*;
use crate::text::{
    lacks, lemma_concat_keeps_out, lemma_replace_keeps_out, lemma_replace_removes,
    lemma_strip_keeps_out, lemma_subrange_keeps_out, lemma_trim_keeps_out, byte_len, utf8_width, char_width, chars_of, is_ws, extend_vec, replace_all, replace_chars, string_of, strip_ws, trim, trimmed,
    without_whitespace,
};

verus! {

// ---------------------------------------------------------------------------
// UTF-8 byte positions
// ---------------------------------------------------------------------------

/// Byte offset `b` of `s` falls between characters, namely before the
/// character at index `k`.
pub open spec fn is_boundary(s: Seq<char>, b: int, k: int) -> bool {
    0 <= k <= s.len() && byte_len(s.take(k)) == b
}

/// The character index at byte offset `b`, or `None` when `b` falls inside
/// a character or beyond the end (where slicing a `str` at `b` panics).
pub open spec fn boundary(s: Seq<char>, b: int) -> Option<int> {
    if exists|k: int| is_boundary(s, b, k) {
        Some(choose|k: int| is_boundary(s, b, k))
    } else {
        None
    }
}

/// Index of the first occurrence of `c` in `s`.
pub open spec fn is_first(s: Seq<char>, c: char, i: int) -> bool {
    &&& 0 <= i < s.len()
    &&& s[i] == c
    &&& forall|j: int| 0 <= j < i ==> s[j] != c
}

/// The index of the first occurrence of `c` in `s`, if any.
pub open spec fn first_index(s: Seq<char>, c: char) -> Option<int> {
    if exists|i: int| is_first(s, c, i) {
        Some(choose|i: int| is_first(s, c, i))
    } else {
        None
    }
}

// ---------------------------------------------------------------------------
// The normalisation
// ---------------------------------------------------------------------------

/// The date text once OCR confusions are repaired: `·` becomes `-`, `：`
/// becomes `:`, `厶` becomes `4`, the `[UNK]` marks that the recogniser
/// emits are dropped, and all whitespace is removed.
pub open spec fn compact_date(s: Seq<char>) -> Seq<char> {
    let s1 = replace_all(s, seq!['·'], seq!['-']);
    let s2 = replace_all(s1, seq!['：'], seq![':']);
    let s3 = replace_all(s2, seq!['厶'], seq!['4']);
    let s4 = replace_all(s3, seq!['[', 'U', 'N', 'K', ']'], Seq::empty());
    strip_ws(s4)
}

/// The compact text already has the shape `YYYY-MM-DD?HH:MM:SS` (19 bytes,
/// `-` at characters 4 and 7, `:` at character 13).
pub open spec fn has_full_shape(c: Seq<char>) -> bool {
    &&& byte_len(c) == 19
    &&& c.len() > 13
    &&& c[4] == '-'
    &&& c[7] == '-'
    &&& c[13] == ':'
}

/// What the normalisation returns for `s`; `None` where it would cut the
/// text inside a multi-byte character.
///
/// - A compact text of the full shape becomes its first 10 bytes, a space,
///   and its bytes from offset 11 on.
/// - Otherwise, when the first `:` stands at byte offset `idx > 4`, the text
///   is cut two bytes before it into a date and a time part, which are
///   joined (trimmed) by a space.
/// - Otherwise the compact text itself.
pub open spec fn normalized_date(s: Seq<char>) -> Option<Seq<char>> {
    let c = compact_date(s);
    if has_full_shape(c) {
        match (boundary(c, 10), boundary(c, 11)) {
            (Some(i), Some(j)) => Some(c.take(i) + seq![' '] + c.skip(j)),
            _ => None,
        }
    } else {
        match first_index(c, ':') {
            Some(ci) => {
                let idx = byte_len(c.take(ci));
                if idx > 4 {
                    match boundary(c, idx - 2) {
                        Some(k) => Some(trim(c.take(k)) + seq![' '] + trim(c.skip(k))),
                        None => None,
                    }
                } else {
                    Some(c)
                }
            },
            None => Some(c),
        }
    }
}

/// The characters that OCR confuses with date separators and digits.
pub open spec fn free_of_confusions(s: Seq<char>) -> bool {
    lacks(s, '·') && lacks(s, '：') && lacks(s, '厶')
}

proof fn lemma_compact_free(s: Seq<char>)
    ensures
        free_of_confusions(compact_date(s)),
{
    let s1 = replace_all(s, seq!['·'], seq!['-']);
    let s2 = replace_all(s1, seq!['：'], seq![':']);
    let s3 = replace_all(s2, seq!['厶'], seq!['4']);
    let unk = seq!['[', 'U', 'N', 'K', ']'];
    let s4 = replace_all(s3, unk, Seq::empty());
    let e = Seq::<char>::empty();
    lemma_replace_removes(s, '·', seq!['-']);
    lemma_replace_keeps_out(s1, seq!['：'], seq![':'], '·');
    lemma_replace_removes(s1, '：', seq![':']);
    lemma_replace_keeps_out(s2, seq!['厶'], seq!['4'], '·');
    lemma_replace_keeps_out(s2, seq!['厶'], seq!['4'], '：');
    lemma_replace_removes(s2, '厶', seq!['4']);
    lemma_replace_keeps_out(s3, unk, e, '·');
    lemma_replace_keeps_out(s3, unk, e, '：');
    lemma_replace_keeps_out(s3, unk, e, '厶');
    lemma_strip_keeps_out(s4, '·');
    lemma_strip_keeps_out(s4, '：');
    lemma_strip_keeps_out(s4, '厶');
}

proof fn lemma_joined_free(a: Seq<char>, b: Seq<char>, c: char)
    requires
        lacks(a, c),
        lacks(b, c),
        c != ' ',
    ensures
        lacks(a + seq![' '] + b, c),
{
    lemma_concat_keeps_out(a, seq![' '], c);
    lemma_concat_keeps_out(a + seq![' '], b, c);
}

/// A normalised date holds none of the characters that OCR confuses with
/// date separators and digits (`·`, `：`, `厶`).
pub proof fn lemma_normalized_date_free(s: Seq<char>)
    requires
        normalized_date(s) is Some,
    ensures
        free_of_confusions(normalized_date(s).unwrap()),
{
    let c = compact_date(s);
    lemma_compact_free(s);
    if has_full_shape(c) {
        let i = boundary(c, 10).unwrap();
        let j = boundary(c, 11).unwrap();
        assert(is_boundary(c, 10, i) && is_boundary(c, 11, j));
        assert(c.take(i) == c.subrange(0, i));
        assert(c.skip(j) == c.subrange(j, c.len() as int));
        lemma_subrange_keeps_out(c, 0, i, '·');
        lemma_subrange_keeps_out(c, 0, i, '：');
        lemma_subrange_keeps_out(c, 0, i, '厶');
        lemma_subrange_keeps_out(c, j, c.len() as int, '·');
        lemma_subrange_keeps_out(c, j, c.len() as int, '：');
        lemma_subrange_keeps_out(c, j, c.len() as int, '厶');
        lemma_joined_free(c.take(i), c.skip(j), '·');
        lemma_joined_free(c.take(i), c.skip(j), '：');
        lemma_joined_free(c.take(i), c.skip(j), '厶');
    } else if let Some(ci) = first_index(c, ':') {
        let idx = byte_len(c.take(ci));
        if idx > 4 {
            let k = boundary(c, idx - 2).unwrap();
            assert(is_boundary(c, idx - 2, k));
            assert(c.take(k) == c.subrange(0, k));
            assert(c.skip(k) == c.subrange(k, c.len() as int));
            lemma_subrange_keeps_out(c, 0, k, '·');
            lemma_subrange_keeps_out(c, 0, k, '：');
            lemma_subrange_keeps_out(c, 0, k, '厶');
            lemma_subrange_keeps_out(c, k, c.len() as int, '·');
            lemma_subrange_keeps_out(c, k, c.len() as int, '：');
            lemma_subrange_keeps_out(c, k, c.len() as int, '厶');
            lemma_trim_keeps_out(c.take(k), '·');
            lemma_trim_keeps_out(c.take(k), '：');
            lemma_trim_keeps_out(c.take(k), '厶');
            lemma_trim_keeps_out(c.skip(k), '·');
            lemma_trim_keeps_out(c.skip(k), '：');
            lemma_trim_keeps_out(c.skip(k), '厶');
            lemma_joined_free(trim(c.take(k)), trim(c.skip(k)), '·');
            lemma_joined_free(trim(c.take(k)), trim(c.skip(k)), '：');
            lemma_joined_free(trim(c.take(k)), trim(c.skip(k)), '厶');
        }
    }
}

// ---------------------------------------------------------------------------
// Proofs about byte positions
// ---------------------------------------------------------------------------

proof fn lemma_byte_len_take_step(s: Seq<char>, k: int)
    requires
        0 <= k < s.len(),
    ensures
        byte_len(s.take(k + 1)) == byte_len(s.take(k)) + utf8_width(s[k]),
{
    assert(s.take(k + 1).drop_last() == s.take(k));
}

proof fn lemma_byte_len_grows(s: Seq<char>, k1: int, k2: int)
    requires
        0 <= k1 <= k2 <= s.len(),
    ensures
        byte_len(s.take(k2)) >= byte_len(s.take(k1)) + (k2 - k1),
    decreases k2 - k1,
{
    if k1 < k2 {
        lemma_byte_len_grows(s, k1, k2 - 1);
        lemma_byte_len_take_step(s, k2 - 1);
    }
}

proof fn lemma_boundary_unique(s: Seq<char>, b: int, k: int)
    requires
        is_boundary(s, b, k),
    ensures
        boundary(s, b) == Some(k),
{
    let k2 = choose|k2: int| is_boundary(s, b, k2);
    if k2 < k {
        lemma_byte_len_grows(s, k2, k);
    } else if k < k2 {
        lemma_byte_len_grows(s, k, k2);
    }
}

// ---------------------------------------------------------------------------
// Dates already in the normal form
// ---------------------------------------------------------------------------

/// An ASCII decimal digit.
pub open spec fn is_digit(c: char) -> bool {
    '0' <= c && c <= '9'
}

/// `s` is a date in the normal form `YYYY-MM-DD HH:MM:SS`.
pub open spec fn is_canonical_date(s: Seq<char>) -> bool {
    &&& s.len() == 19
    &&& forall|i: int|
        0 <= i < 19 && i != 4 && i != 7 && i != 10 && i != 13 && i != 16 ==> is_digit(
            #[trigger] s[i],
        )
    &&& s[4] == '-'
    &&& s[7] == '-'
    &&& s[10] == ' '
    &&& s[13] == ':'
    &&& s[16] == ':'
}

proof fn lemma_replace_absent(s: Seq<char>, from: Seq<char>, to: Seq<char>)
    requires
        from.len() > 0,
        lacks(s, from[0]),
    ensures
        replace_all(s, from, to) == s,
    decreases s.len(),
{
    if s.len() >= from.len() {
        assert(s.take(from.len() as int)[0] == s[0]);
        let rest = s.drop_first();
        assert(lacks(rest, from[0])) by {
            assert forall|i: int| 0 <= i < rest.len() implies rest[i] != from[0] by {
                assert(rest[i] == s[i + 1]);
            }
        }
        lemma_replace_absent(rest, from, to);
        assert(seq![s[0]] + rest =~= s);
    }
}

proof fn lemma_strip_none(s: Seq<char>)
    requires
        forall|i: int| 0 <= i < s.len() ==> !is_ws(#[trigger] s[i]),
    ensures
        strip_ws(s) == s,
    decreases s.len(),
{
    reveal_with_fuel(Seq::filter, 1);
    if s.len() > 0 {
        let d = s.drop_last();
        assert forall|i: int| 0 <= i < d.len() implies !is_ws(#[trigger] d[i]) by {
            assert(d[i] == s[i]);
        }
        lemma_strip_none(d);
        assert(!is_ws(s[s.len() - 1]));
        assert(d.push(s.last()) =~= s);
    }
}

proof fn lemma_ascii_byte_len(s: Seq<char>)
    requires
        forall|i: int| 0 <= i < s.len() ==> (#[trigger] s[i] as u32) < 0x80,
    ensures
        byte_len(s) == s.len(),
    decreases s.len(),
{
    if s.len() > 0 {
        let d = s.drop_last();
        assert forall|i: int| 0 <= i < d.len() implies (#[trigger] d[i] as u32) < 0x80 by {
            assert(d[i] == s[i]);
        }
        lemma_ascii_byte_len(d);
        assert((s[s.len() - 1] as u32) < 0x80);
    }
}

proof fn lemma_trim_none(s: Seq<char>)
    requires
        forall|i: int| 0 <= i < s.len() ==> !is_ws(#[trigger] s[i]),
    ensures
        trim(s) == s,
{
    if s.len() > 0 {
        assert(!is_ws(s[0]));
        assert(!is_ws(s[s.len() - 1]));
    }
}

/// A date already in the normal form `YYYY-MM-DD HH:MM:SS` is normalised to
/// itself.
pub proof fn lemma_canonical_date_fixed(s: Seq<char>)
    requires
        is_canonical_date(s),
    ensures
        normalized_date(s) == Some(s),
{
    assert forall|i: int| 0 <= i < s.len() implies {
        let x = #[trigger] s[i];
        &&& x != '·' && x != '：' && x != '厶' && x != '['
        &&& (x as u32) < 0x80
        &&& (i != 10 ==> !is_ws(x))
        &&& (i != 13 && i != 16 ==> x != ':')
    } by {
        if i != 4 && i != 7 && i != 10 && i != 13 && i != 16 {
            assert(is_digit(s[i]));
        }
    }
    let unk = seq!['[', 'U', 'N', 'K', ']'];
    lemma_replace_absent(s, seq!['·'], seq!['-']);
    lemma_replace_absent(s, seq!['：'], seq![':']);
    lemma_replace_absent(s, seq!['厶'], seq!['4']);
    lemma_replace_absent(s, unk, Seq::empty());
    let a = s.take(10);
    let t = s.skip(11);
    assert(s =~= a + seq![' '] + t);
    assert forall|i: int| 0 <= i < a.len() implies !is_ws(#[trigger] a[i]) by {
        assert(a[i] == s[i]);
    }
    assert forall|i: int| 0 <= i < t.len() implies !is_ws(#[trigger] t[i]) by {
        assert(t[i] == s[i + 11]);
    }
    lemma_strip_none(a);
    lemma_strip_none(t);
    reveal_with_fuel(Seq::filter, 2);
    assert(strip_ws(seq![' ']) =~= Seq::<char>::empty()) by {
        assert(seq![' '].drop_last() =~= Seq::<char>::empty());
    }
    Seq::filter_distributes_over_add(a + seq![' '], t, |c: char| !is_ws(c));
    Seq::filter_distributes_over_add(a, seq![' '], |c: char| !is_ws(c));
    let c = a + t;
    assert(compact_date(s) =~= c);
    assert forall|i: int| 0 <= i < c.len() implies (#[trigger] c[i] as u32) < 0x80 by {
        if i < 10 {
            assert(c[i] == s[i]);
        } else {
            assert(c[i] == s[i + 1]);
        }
    }
    lemma_ascii_byte_len(c);
    assert(!has_full_shape(c));
    assert(c[12] == s[13]);
    assert forall|j: int| 0 <= j < 12 implies #[trigger] c[j] != ':' by {
        if j < 10 {
            assert(c[j] == s[j]);
        } else {
            assert(c[j] == s[j + 1]);
        }
    }
    assert(is_first(c, ':', 12));
    let ci = choose|i: int| is_first(c, ':', i);
    assert(ci == 12) by {
        if ci < 12 {
            assert(c[ci] != ':');
        } else if ci > 12 {
            assert(c[12] != ':');
        }
    }
    assert(first_index(c, ':') == Some(12int));
    assert forall|i: int| 0 <= i < c.take(12).len() implies (#[trigger] c.take(12)[i] as u32)
        < 0x80 by {
        assert(c.take(12)[i] == c[i]);
    }
    lemma_ascii_byte_len(c.take(12));
    assert forall|i: int| 0 <= i < c.take(10).len() implies (#[trigger] c.take(10)[i] as u32)
        < 0x80 by {
        assert(c.take(10)[i] == c[i]);
    }
    lemma_ascii_byte_len(c.take(10));
    lemma_boundary_unique(c, 10, 10);
    assert(c.take(10) =~= a);
    assert(c.skip(10) =~= t);
    lemma_trim_none(a);
    lemma_trim_none(t);
}

/// Byte offsets of every character boundary of `s`: entry `k` is the byte
/// length of the first `k` characters.
fn byte_offsets(s: &Vec<char>) -> (offs: Vec<u128>)
    ensures
        offs.len() == s.len() + 1,
        forall|k: int| 0 <= k <= s.len() ==> #[trigger] offs@[k] == byte_len(s@.take(k)),
        forall|k: int| 0 <= k <= s.len() ==> #[trigger] offs@[k] <= 4 * k,
{
    let mut offs: Vec<u128> = Vec::new();
    offs.push(0);
    assert(s@.take(0) =~= Seq::<char>::empty());
    let mut i: usize = 0;
    while i < s.len()
        invariant
            i <= s.len(),
            offs.len() == i + 1,
            forall|k: int| 0 <= k <= i ==> #[trigger] offs@[k] == byte_len(s@.take(k)),
            forall|k: int| 0 <= k <= i ==> #[trigger] offs@[k] <= 4 * k,
        decreases s.len() - i,
    {
        let last = offs[i];
        let w = char_width(s[i]);
        proof {
            lemma_byte_len_take_step(s@, i as int);
        }
        offs.push(last + w);
        i = i + 1;
    }
    offs
}

/// The character index at byte offset `b`, if `b` is a boundary.
fn find_boundary(s: &Vec<char>, offs: &Vec<u128>, b: u128) -> (r: Option<usize>)
    requires
        offs.len() == s.len() + 1,
        forall|k: int| 0 <= k <= s.len() ==> #[trigger] offs@[k] == byte_len(s@.take(k)),
    ensures
        r is Some <==> boundary(s@, b as int) is Some,
        r matches Some(k) ==> boundary(s@, b as int) == Some(k as int) && k <= s.len(),
{
    let mut k: usize = 0;
    while k < offs.len()
        invariant
            k <= offs.len(),
            offs.len() == s.len() + 1,
            forall|j: int| 0 <= j <= s.len() ==> #[trigger] offs@[j] == byte_len(s@.take(j)),
            forall|j: int| 0 <= j < k ==> #[trigger] offs@[j] != b,
        decreases offs.len() - k,
    {
        if offs[k] == b {
            proof {
                lemma_boundary_unique(s@, b as int, k as int);
            }
            return Some(k);
        }
        k = k + 1;
    }
    assert forall|j: int| !is_boundary(s@, b as int, j) by {
        if 0 <= j <= s.len() {
            assert(offs@[j] != b);
        }
    }
    None
}

/// The index of the first `c` in `s`, if any.
fn find_first(s: &Vec<char>, c: char) -> (r: Option<usize>)
    ensures
        r is Some <==> first_index(s@, c) is Some,
        r matches Some(i) ==> first_index(s@, c) == Some(i as int) && i < s.len(),
{
    let mut i: usize = 0;
    while i < s.len()
        invariant
            i <= s.len(),
            forall|j: int| 0 <= j < i ==> s@[j] != c,
        decreases s.len() - i,
    {
        if s[i] == c {
            assert(is_first(s@, c, i as int));
            let ghost i2 = choose|i2: int| is_first(s@, c, i2);
            assert(i2 == i);
            return Some(i);
        }
        i = i + 1;
    }
    assert forall|j: int| !is_first(s@, c, j) by {
        if 0 <= j < s.len() {
            assert(s@[j] != c);
        }
    }
    None
}

/// The compact date text of `s`.
fn compact_of(s: &str) -> (r: Vec<char>)
    ensures
        r@ == compact_date(s@),
{
    let v = chars_of(s);
    let dot = vec!['·'];
    let dash = vec!['-'];
    let wide_colon = vec!['：'];
    let colon = vec![':'];
    let si = vec!['厶'];
    let four = vec!['4'];
    let unk = vec!['[', 'U', 'N', 'K', ']'];
    let none: Vec<char> = Vec::new();
    assert(dot@ == seq!['·'] && dash@ == seq!['-']);
    assert(wide_colon@ == seq!['：'] && colon@ == seq![':']);
    assert(si@ == seq!['厶'] && four@ == seq!['4']);
    assert(unk@ == seq!['[', 'U', 'N', 'K', ']'] && none@ == Seq::<char>::empty());
    let v1 = replace_chars(&v, &dot, &dash);
    let v2 = replace_chars(&v1, &wide_colon, &colon);
    let v3 = replace_chars(&v2, &si, &four);
    let v4 = replace_chars(&v3, &unk, &none);
    without_whitespace(&v4)
}

/// The normalised date and whether the text can be normalised without
/// cutting a character; shared by [`normalize_date`] and
/// [`date_normalizable`].
fn normalize_chars(s: &str) -> (r: Option<Vec<char>>)
    ensures
        r is Some <==> normalized_date(s@) is Some,
        r matches Some(v) ==> normalized_date(s@) == Some(v@),
{
    let c = compact_of(s);
    let offs = byte_offsets(&c);
    let n = c.len();
    if offs[n] == 19 && n > 13 && c[4] == '-' && c[7] == '-' && c[13] == ':' {
        assert(c@.take(n as int) == c@);
        let i = find_boundary(&c, &offs, 10);
        let j = find_boundary(&c, &offs, 11);
        match (i, j) {
            (Some(i), Some(j)) => {
                let mut out: Vec<char> = Vec::new();
                let mut k: usize = 0;
                while k < i
                    invariant
                        k <= i <= c.len(),
                        out@ == c@.take(k as int),
                    decreases i - k,
                {
                    out.push(c[k]);
                    k = k + 1;
                    assert(c@.take(k as int) == c@.take(k - 1).push(c@[k - 1]));
                }
                out.push(' ');
                let ghost head = out@;
                k = j;
                while k < n
                    invariant
                        j <= k <= n,
                        n == c.len(),
                        out@ == head + c@.subrange(j as int, k as int),
                    decreases n - k,
                {
                    out.push(c[k]);
                    k = k + 1;
                    assert(c@.subrange(j as int, k as int) == c@.subrange(j as int, k - 1).push(
                        c@[k - 1],
                    ));
                }
                assert(c@.subrange(j as int, n as int) == c@.skip(j as int));
                Some(out)
            },
            _ => None,
        }
    } else {
        proof {
            assert(c@.take(n as int) == c@);
        }
        match find_first(&c, ':') {
            Some(ci) => {
                let idx = offs[ci];
                if idx > 4 {
                    match find_boundary(&c, &offs, idx - 2) {
                        Some(k) => {
                            let mut d: Vec<char> = Vec::new();
                            let mut t: Vec<char> = Vec::new();
                            let mut x: usize = 0;
                            while x < n
                                invariant
                                    x <= n,
                                    n == c.len(),
                                    k <= n,
                                    x <= k ==> d@ == c@.take(x as int) && t@.len() == 0,
                                    x > k ==> d@ == c@.take(k as int) && t@ == c@.subrange(
                                        k as int,
                                        x as int,
                                    ),
                                decreases n - x,
                            {
                                if x < k {
                                    d.push(c[x]);
                                    assert(c@.take(x + 1) == c@.take(x as int).push(c@[x as int]));
                                } else {
                                    proof {
                                        if x == k {
                                            assert(t@ == c@.subrange(k as int, x as int));
                                        }
                                    }
                                    t.push(c[x]);
                                    assert(c@.subrange(k as int, x + 1) == c@.subrange(
                                        k as int,
                                        x as int,
                                    ).push(c@[x as int]));
                                }
                                x = x + 1;
                            }
                            proof {
                                if n <= k {
                                    assert(c@.skip(k as int) =~= Seq::<char>::empty());
                                    assert(t@ =~= c@.skip(k as int));
                                } else {
                                    assert(c@.subrange(k as int, n as int) == c@.skip(k as int));
                                }
                            }
                            let mut out = trimmed(&d);
                            out.push(' ');
                            let tt = trimmed(&t);
                            extend_vec(&mut out, &tt);
                            Some(out)
                        },
                        None => None,
                    }
                } else {
                    Some(c)
                }
            },
            None => Some(c),
        }
    }
}

/// Whether [`normalize_date`] accepts `s`: the cuts it makes at fixed byte
/// offsets all fall between characters.
pub fn date_normalizable(s: &str) -> (r: bool)
    ensures
        r == (normalized_date(s@) is Some),
{
    normalize_chars(s).is_some()
}

/// Normalises an OCR-read record date to `YYYY-MM-DD HH:MM:SS` (see
/// [`normalized_date`]).
pub fn normalize_date(s: &str) -> (r: String)
    requires
        normalized_date(s@) is Some,
    ensures
        Some(r@) == normalized_date(s@),
        free_of_confusions(r@),
{
    proof {
        lemma_normalized_date_free(s@);
    }
    match normalize_chars(s) {
        Some(v) => string_of(&v),
        None => String::new(),
    }
}

} // verus!
