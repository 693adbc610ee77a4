//! Character-level text utilities. Strings are modelled by their views,
//! sequences of `char`.
use vstd::prelude::*;

verus! {

// ---------------------------------------------------------------------------
// Specifications
// ---------------------------------------------------------------------------

/// Unicode `White_Space` property (the set that `char::is_whitespace` and
/// `str::trim` use).
pub open spec fn is_ws(c: char) -> bool {
    let u = c as u32;
    ||| (0x09 <= u && u <= 0x0D)
    ||| u == 0x20
    ||| u == 0x85
    ||| u == 0xA0
    ||| u == 0x1680
    ||| (0x2000 <= u && u <= 0x200A)
    ||| u == 0x2028
    ||| u == 0x2029
    ||| u == 0x202F
    ||| u == 0x205F
    ||| u == 0x3000
}

/// `s` with every whitespace character removed.
pub open spec fn strip_ws(s: Seq<char>) -> Seq<char> {
    s.filter(|c: char| !is_ws(c))
}

/// `s` without its leading whitespace.
pub open spec fn trim_start(s: Seq<char>) -> Seq<char>
    decreases s.len(),
{
    if s.len() > 0 && is_ws(s[0]) {
        trim_start(s.drop_first())
    } else {
        s
    }
}

/// `s` without its trailing whitespace.
pub open spec fn trim_end(s: Seq<char>) -> Seq<char>
    decreases s.len(),
{
    if s.len() > 0 && is_ws(s.last()) {
        trim_end(s.drop_last())
    } else {
        s
    }
}

/// `s` without leading and trailing whitespace (what `str::trim` returns).
pub open spec fn trim(s: Seq<char>) -> Seq<char> {
    trim_end(trim_start(s))
}

/// `p` occurs in `s` starting at position `i`.
pub open spec fn occurs_at(s: Seq<char>, p: Seq<char>, i: int) -> bool {
    &&& 0 <= i
    &&& i + p.len() <= s.len()
    &&& s.subrange(i, i + p.len()) == p
}

/// `p` occurs somewhere in `s` (what `str::contains` with a string pattern
/// decides).
pub open spec fn has_substr(s: Seq<char>, p: Seq<char>) -> bool {
    exists|i: int| occurs_at(s, p, i)
}

/// Replaces the non-overlapping occurrences of `from` in `s`, scanning from
/// the left, by `to` (what `str::replace` returns for a non-empty pattern).
pub open spec fn replace_all(s: Seq<char>, from: Seq<char>, to: Seq<char>) -> Seq<char>
    decreases s.len(),
{
    if from.len() == 0 || s.len() < from.len() {
        s
    } else if s.take(from.len() as int) == from {
        to + replace_all(s.skip(from.len() as int), from, to)
    } else {
        seq![s[0]] + replace_all(s.drop_first(), from, to)
    }
}

/// The decimal digit character of `d < 10`.
pub open spec fn digit_char(d: nat) -> char {
    if d == 0 { '0' }
    else if d == 1 { '1' }
    else if d == 2 { '2' }
    else if d == 3 { '3' }
    else if d == 4 { '4' }
    else if d == 5 { '5' }
    else if d == 6 { '6' }
    else if d == 7 { '7' }
    else if d == 8 { '8' }
    else { '9' }
}

/// The decimal representation of `n`, without sign or leading zeros.
pub open spec fn decimal(n: nat) -> Seq<char>
    decreases n,
{
    if n < 10 {
        seq![digit_char(n)]
    } else {
        decimal(n / 10).push(digit_char(n % 10))
    }
}

/// Number of bytes of the UTF-8 encoding of `c`.
pub open spec fn utf8_width(c: char) -> nat {
    let u = c as u32;
    if u < 0x80 {
        1
    } else if u < 0x800 {
        2
    } else if u < 0x10000 {
        3
    } else {
        4
    }
}

/// Number of bytes of the UTF-8 encoding of `s` (what `str::len` returns).
pub open spec fn byte_len(s: Seq<char>) -> nat
    decreases s.len(),
{
    if s.len() == 0 {
        0
    } else {
        byte_len(s.drop_last()) + utf8_width(s.last())
    }
}

proof fn lemma_byte_len_front(s: Seq<char>)
    requires
        s.len() > 0,
    ensures
        byte_len(s) == utf8_width(s[0]) + byte_len(s.drop_first()),
    decreases s.len(),
{
    if s.len() > 1 {
        lemma_byte_len_front(s.drop_last());
        assert(s.drop_last().drop_first() == s.drop_first().drop_last());
        assert(s.drop_first().last() == s.last());
        assert(byte_len(s.drop_first()) == byte_len(s.drop_first().drop_last()) + utf8_width(
            s.drop_first().last(),
        ));
    } else {
        assert(byte_len(s) == byte_len(s.drop_last()) + utf8_width(s.last()));
        assert(s.drop_last().len() == 0);
        assert(s.drop_first().len() == 0);
    }
}

/// `byte_len` is the length of the UTF-8 encoding.
pub proof fn lemma_byte_len_encoding(s: Seq<char>)
    ensures
        vstd::utf8::encode_utf8(s).len() == byte_len(s),
    decreases s.len(),
{
    if s.len() > 0 {
        lemma_byte_len_front(s);
        lemma_byte_len_encoding(s.drop_first());
        vstd::utf8::char_is_scalar(s[0]);
    }
}

/// Number of bytes of the UTF-8 encoding of `c`.
pub fn char_width(c: char) -> (w: u128)
    ensures
        w == utf8_width(c),
{
    let u = c as u32;
    if u < 0x80 {
        1
    } else if u < 0x800 {
        2
    } else if u < 0x10000 {
        3
    } else {
        4
    }
}

/// Number of bytes of the UTF-8 encoding of the characters `v`.
pub fn byte_length(v: &Vec<char>) -> (n: u128)
    ensures
        n == byte_len(v@),
{
    let mut n: u128 = 0;
    let mut i: usize = 0;
    assert(v@.take(0) =~= Seq::<char>::empty());
    while i < v.len()
        invariant
            i <= v.len(),
            n == byte_len(v@.take(i as int)),
            n <= 4 * i,
        decreases v.len() - i,
    {
        assert(v@.take(i + 1).drop_last() == v@.take(i as int));
        n = n + char_width(v[i]);
        i = i + 1;
    }
    assert(v@.take(v.len() as int) == v@);
    n
}

/// The view of an optional string slice.
pub open spec fn opt_str(o: Option<&str>) -> Option<Seq<char>> {
    match o {
        Some(s) => Some(s@),
        None => None,
    }
}

/// `c` does not occur in `s`.
pub open spec fn lacks(s: Seq<char>, c: char) -> bool {
    forall|i: int| 0 <= i < s.len() ==> s[i] != c
}

/// Replacing keeps a character out that neither the text nor the
/// replacement holds.
pub proof fn lemma_replace_keeps_out(s: Seq<char>, from: Seq<char>, to: Seq<char>, c: char)
    requires
        lacks(s, c),
        lacks(to, c),
    ensures
        lacks(replace_all(s, from, to), c),
    decreases s.len(),
{
    if from.len() == 0 || s.len() < from.len() {
    } else if s.take(from.len() as int) == from {
        let rest = s.skip(from.len() as int);
        assert(lacks(rest, c)) by {
            assert forall|i: int| 0 <= i < rest.len() implies rest[i] != c by {
                assert(rest[i] == s[i + from.len()]);
            }
        }
        lemma_replace_keeps_out(rest, from, to, c);
        let r = replace_all(rest, from, to);
        assert forall|i: int| 0 <= i < (to + r).len() implies (to + r)[i] != c by {
            if i >= to.len() {
                assert((to + r)[i] == r[i - to.len()]);
            }
        }
    } else {
        let rest = s.drop_first();
        assert(lacks(rest, c)) by {
            assert forall|i: int| 0 <= i < rest.len() implies rest[i] != c by {
                assert(rest[i] == s[i + 1]);
            }
        }
        lemma_replace_keeps_out(rest, from, to, c);
        let r = replace_all(rest, from, to);
        assert forall|i: int| 0 <= i < (seq![s[0]] + r).len() implies (seq![s[0]] + r)[i] != c by {
            if i >= 1 {
                assert((seq![s[0]] + r)[i] == r[i - 1]);
            }
        }
    }
}

/// Replacing a character by a text that does not hold it removes it.
pub proof fn lemma_replace_removes(s: Seq<char>, c: char, to: Seq<char>)
    requires
        lacks(to, c),
    ensures
        lacks(replace_all(s, seq![c], to), c),
    decreases s.len(),
{
    let from = seq![c];
    if s.len() < 1 {
    } else if s.take(1) == from {
        let rest = s.skip(1);
        lemma_replace_removes(rest, c, to);
        let r = replace_all(rest, from, to);
        assert forall|i: int| 0 <= i < (to + r).len() implies (to + r)[i] != c by {
            if i >= to.len() {
                assert((to + r)[i] == r[i - to.len()]);
            }
        }
    } else {
        assert(s[0] != c) by {
            if s[0] == c {
                assert(s.take(1) =~= from);
            }
        }
        let rest = s.drop_first();
        lemma_replace_removes(rest, c, to);
        let r = replace_all(rest, from, to);
        assert forall|i: int| 0 <= i < (seq![s[0]] + r).len() implies (seq![s[0]] + r)[i] != c by {
            if i >= 1 {
                assert((seq![s[0]] + r)[i] == r[i - 1]);
            }
        }
    }
}

/// Removing whitespace keeps a character out.
pub proof fn lemma_strip_keeps_out(s: Seq<char>, c: char)
    requires
        lacks(s, c),
    ensures
        lacks(strip_ws(s), c),
    decreases s.len(),
{
    reveal_with_fuel(Seq::filter, 1);
    if s.len() > 0 {
        let d = s.drop_last();
        assert(lacks(d, c)) by {
            assert forall|i: int| 0 <= i < d.len() implies d[i] != c by {
                assert(d[i] == s[i]);
            }
        }
        lemma_strip_keeps_out(d, c);
        assert(s[s.len() - 1] != c);
    }
}

/// Every character of `s` is a character of `t`'s window `[a, b)`.
pub proof fn lemma_subrange_keeps_out(s: Seq<char>, a: int, b: int, c: char)
    requires
        lacks(s, c),
        0 <= a <= b <= s.len(),
    ensures
        lacks(s.subrange(a, b), c),
{
    assert forall|i: int| 0 <= i < b - a implies s.subrange(a, b)[i] != c by {
        assert(s.subrange(a, b)[i] == s[a + i]);
    }
}

/// Trimming keeps a character out.
pub proof fn lemma_trim_keeps_out(s: Seq<char>, c: char)
    requires
        lacks(s, c),
    ensures
        lacks(trim(s), c),
{
    lemma_trim_start_keeps_out(s, c);
    lemma_trim_end_keeps_out(trim_start(s), c);
}

proof fn lemma_trim_start_keeps_out(s: Seq<char>, c: char)
    requires
        lacks(s, c),
    ensures
        lacks(trim_start(s), c),
    decreases s.len(),
{
    if s.len() > 0 && is_ws(s[0]) {
        lemma_subrange_keeps_out(s, 1, s.len() as int, c);
        assert(s.drop_first() == s.subrange(1, s.len() as int));
        lemma_trim_start_keeps_out(s.drop_first(), c);
    }
}

proof fn lemma_trim_end_keeps_out(s: Seq<char>, c: char)
    requires
        lacks(s, c),
    ensures
        lacks(trim_end(s), c),
    decreases s.len(),
{
    if s.len() > 0 && is_ws(s.last()) {
        lemma_subrange_keeps_out(s, 0, s.len() - 1, c);
        assert(s.drop_last() == s.subrange(0, s.len() - 1));
        lemma_trim_end_keeps_out(s.drop_last(), c);
    }
}

/// Concatenation keeps a character out.
pub proof fn lemma_concat_keeps_out(a: Seq<char>, b: Seq<char>, c: char)
    requires
        lacks(a, c),
        lacks(b, c),
    ensures
        lacks(a + b, c),
{
    assert forall|i: int| 0 <= i < (a + b).len() implies (a + b)[i] != c by {
        if i >= a.len() {
            assert((a + b)[i] == b[i - a.len()]);
        }
    }
}

// ---------------------------------------------------------------------------
// Calls into std that vstd leaves unspecified
// ---------------------------------------------------------------------------

/// `String::push`: appends one character.
#[verifier::external_body]
pub(crate) fn push_char(s: &mut String, c: char)
    ensures
        final(s)@ == old(s)@.push(c),
{
    s.push(c);
}

/// `<str as PartialEq>::eq`: two string slices are equal exactly when their
/// characters are.
#[verifier::external_body]
pub(crate) fn str_eq(a: &str, b: &str) -> (r: bool)
    ensures
        r == (a@ == b@),
{
    a == b
}

// ---------------------------------------------------------------------------
// Verified utilities
// ---------------------------------------------------------------------------

/// Copies the characters of a string slice into a vector.
pub fn chars_of(s: &str) -> (r: Vec<char>)
    ensures
        r@ == s@,
{
    let mut r: Vec<char> = Vec::new();
    for c in it: s.chars()
        invariant
            r@ == it.seq().take(it.index()),
            it.seq() == s@,
    {
        r.push(c);
    }
    r
}

/// Appends the characters of `s` to `v`.
pub fn extend_chars(v: &mut Vec<char>, s: &str)
    ensures
        final(v)@ == old(v)@ + s@,
{
    let ghost start = v@;
    for c in it: s.chars()
        invariant
            v@ == start + it.seq().take(it.index()),
            it.seq() == s@,
    {
        v.push(c);
    }
    assert(s@.take(s@.len() as int) == s@);
}

/// Appends the characters of `w` to `v`.
pub fn extend_vec(v: &mut Vec<char>, w: &Vec<char>)
    ensures
        final(v)@ == old(v)@ + w@,
{
    let ghost start = v@;
    let mut i: usize = 0;
    while i < w.len()
        invariant
            i <= w.len(),
            v@ == start + w@.take(i as int),
        decreases w.len() - i,
    {
        v.push(w[i]);
        i = i + 1;
        assert(w@.take(i as int) == w@.take(i - 1).push(w@[i - 1]));
    }
    assert(w@.take(w@.len() as int) == w@);
}

/// Builds a `String` holding the given characters.
pub fn string_of(chars: &Vec<char>) -> (r: String)
    ensures
        r@ == chars@,
{
    let mut r = String::new();
    let mut i: usize = 0;
    while i < chars.len()
        invariant
            i <= chars.len(),
            r@ == chars@.take(i as int),
        decreases chars.len() - i,
    {
        push_char(&mut r, chars[i]);
        i = i + 1;
        assert(chars@.take(i as int) == chars@.take(i - 1).push(chars@[i - 1]));
    }
    assert(chars@.take(chars@.len() as int) == chars@);
    r
}

/// Whether `c` is a Unicode whitespace character.
pub fn is_whitespace(c: char) -> (r: bool)
    ensures
        r == is_ws(c),
{
    let u = c as u32;
    (0x09 <= u && u <= 0x0D) || u == 0x20 || u == 0x85 || u == 0xA0 || u == 0x1680 || (0x2000
        <= u && u <= 0x200A) || u == 0x2028 || u == 0x2029 || u == 0x202F || u == 0x205F || u
        == 0x3000
}

/// Whether `p` occurs at position `i` of `s`.
pub fn occurs_at_exec(s: &Vec<char>, p: &Vec<char>, i: usize) -> (r: bool)
    requires
        i <= s.len(),
    ensures
        r == occurs_at(s@, p@, i as int),
{
    if p.len() > s.len() - i {
        return false;
    }
    let mut k: usize = 0;
    while k < p.len()
        invariant
            k <= p.len(),
            i + p.len() <= s.len(),
            forall|j: int| 0 <= j < k ==> s@[i + j] == p@[j],
        decreases p.len() - k,
    {
        if s[i + k] != p[k] {
            assert(s@.subrange(i as int, i + p.len())[k as int] != p@[k as int]);
            return false;
        }
        k = k + 1;
    }
    assert(s@.subrange(i as int, i + p.len()) =~= p@);
    true
}

/// Whether `p` occurs in `s`.
pub fn contains(s: &Vec<char>, p: &Vec<char>) -> (r: bool)
    ensures
        r == has_substr(s@, p@),
{
    let mut i: usize = 0;
    while i < s.len()
        invariant
            i <= s.len(),
            forall|j: int| 0 <= j < i ==> !occurs_at(s@, p@, j),
        decreases s.len() - i,
    {
        if occurs_at_exec(s, p, i) {
            return true;
        }
        i = i + 1;
    }
    if occurs_at_exec(s, p, i) {
        return true;
    }
    assert forall|j: int| !occurs_at(s@, p@, j) by {
        if 0 <= j && j <= i {
        }
    }
    false
}

/// Whether the string `s` contains the string `p`.
pub fn str_contains(s: &str, p: &str) -> (r: bool)
    ensures
        r == has_substr(s@, p@),
{
    let sv = chars_of(s);
    let pv = chars_of(p);
    contains(&sv, &pv)
}

/// `s` with every whitespace character removed.
pub fn without_whitespace(s: &Vec<char>) -> (r: Vec<char>)
    ensures
        r@ == strip_ws(s@),
{
    let mut r: Vec<char> = Vec::new();
    let mut i: usize = 0;
    while i < s.len()
        invariant
            i <= s.len(),
            r@ == strip_ws(s@.take(i as int)),
        decreases s.len() - i,
    {
        let c = s[i];
        proof {
            reveal_with_fuel(Seq::filter, 1);
            assert(s@.take(i + 1).drop_last() == s@.take(i as int));
        }
        if !is_whitespace(c) {
            r.push(c);
        }
        i = i + 1;
    }
    assert(s@.take(s@.len() as int) == s@);
    r
}

proof fn lemma_trim_start_skip(s: Seq<char>, i: int)
    requires
        0 <= i <= s.len(),
        forall|j: int| 0 <= j < i ==> is_ws(#[trigger] s[j]),
    ensures
        trim_start(s) == trim_start(s.skip(i)),
    decreases i,
{
    if i > 0 {
        assert(s.drop_first().skip(i - 1) == s.skip(i));
        lemma_trim_start_skip(s.drop_first(), i - 1);
    } else {
        assert(s.skip(0) == s);
    }
}

proof fn lemma_trim_end_take(s: Seq<char>, e: int)
    requires
        0 <= e <= s.len(),
        forall|j: int| e <= j < s.len() ==> is_ws(#[trigger] s[j]),
    ensures
        trim_end(s) == trim_end(s.take(e)),
    decreases s.len() - e,
{
    if e < s.len() {
        assert(s.drop_last().take(e) == s.take(e));
        lemma_trim_end_take(s.drop_last(), e);
    } else {
        assert(s.take(e) == s);
    }
}

/// `s` without leading and trailing whitespace.
pub fn trimmed(s: &Vec<char>) -> (r: Vec<char>)
    ensures
        r@ == trim(s@),
{
    let mut b: usize = 0;
    while b < s.len() && is_whitespace(s[b])
        invariant
            b <= s.len(),
            forall|j: int| 0 <= j < b ==> is_ws(#[trigger] s@[j]),
        decreases s.len() - b,
    {
        b = b + 1;
    }
    proof {
        lemma_trim_start_skip(s@, b as int);
    }
    let ghost t = s@.skip(b as int);
    let mut e: usize = s.len();
    while e > b && is_whitespace(s[e - 1])
        invariant
            b <= e <= s.len(),
            t == s@.skip(b as int),
            forall|j: int| e - b <= j < t.len() ==> is_ws(#[trigger] t[j]),
        decreases e,
    {
        e = e - 1;
        assert(t[e - b] == s@[e as int]);
    }
    proof {
        lemma_trim_end_take(t, e - b);
        if e > b {
            assert(t[0] == s@[b as int]);
            assert(!is_ws(t.take(e - b)[0]));
            assert(trim_start(t.take(e - b)) == t.take(e - b));
            assert(!is_ws(t.take(e - b).last()));
        } else {
            assert(t.take(0) =~= Seq::<char>::empty());
        }
        if b < s.len() {
            assert(!is_ws(t[0]));
        } else {
            assert(t =~= Seq::<char>::empty());
        }
    }
    let mut r: Vec<char> = Vec::new();
    let mut k: usize = b;
    while k < e
        invariant
            b <= k <= e <= s.len(),
            r@ == s@.subrange(b as int, k as int),
        decreases e - k,
    {
        r.push(s[k]);
        k = k + 1;
        assert(s@.subrange(b as int, k as int) == s@.subrange(b as int, k - 1).push(s@[k - 1]));
    }
    assert(r@ == t.take(e - b));
    r
}

/// Replaces the non-overlapping occurrences of a non-empty `from` in `s` by
/// `to`, scanning from the left.
pub fn replace_chars(s: &Vec<char>, from: &Vec<char>, to: &Vec<char>) -> (r: Vec<char>)
    requires
        from.len() > 0,
    ensures
        r@ == replace_all(s@, from@, to@),
{
    let mut r: Vec<char> = Vec::new();
    let mut i: usize = 0;
    assert(s@.skip(0) == s@);
    while i < s.len()
        invariant
            i <= s.len(),
            from.len() > 0,
            r@ + replace_all(s@.skip(i as int), from@, to@) == replace_all(s@, from@, to@),
        decreases s.len() - i,
    {
        let ghost rest = s@.skip(i as int);
        if from.len() <= s.len() - i && occurs_at_exec(s, from, i) {
            proof {
                assert(rest.take(from.len() as int) == s@.subrange(i as int, i + from.len()));
                assert(rest.skip(from.len() as int) == s@.skip(i + from.len()));
                assert(r@ + to@ + replace_all(s@.skip(i + from.len()), from@, to@) == r@ + (to@
                    + replace_all(rest.skip(from.len() as int), from@, to@)));
            }
            extend_vec(&mut r, to);
            i = i + from.len();
        } else {
            proof {
                if from.len() <= s.len() - i {
                    assert(rest.take(from.len() as int) == s@.subrange(i as int, i + from.len()));
                }
                assert(rest.drop_first() == s@.skip(i + 1));
                assert(rest[0] == s@[i as int]);
                assert(r@.push(s@[i as int]) + replace_all(s@.skip(i + 1), from@, to@) == r@ + (
                seq![rest[0]] + replace_all(rest.drop_first(), from@, to@)));
            }
            r.push(s[i]);
            i = i + 1;
        }
    }
    assert(s@.skip(s@.len() as int) =~= Seq::<char>::empty());
    assert(r@ + Seq::<char>::empty() == r@);
    r
}

/// The decimal representation of `n`.
pub fn decimal_chars(n: u64) -> (r: Vec<char>)
    ensures
        r@ == decimal(n as nat),
    decreases n,
{
    let d = n % 10;
    let c = if d == 0 {
        '0'
    } else if d == 1 {
        '1'
    } else if d == 2 {
        '2'
    } else if d == 3 {
        '3'
    } else if d == 4 {
        '4'
    } else if d == 5 {
        '5'
    } else if d == 6 {
        '6'
    } else if d == 7 {
        '7'
    } else if d == 8 {
        '8'
    } else {
        '9'
    };
    if n < 10 {
        vec![c]
    } else {
        let mut r = decimal_chars(n / 10);
        r.push(c);
        r
    }
}

} // verus!
