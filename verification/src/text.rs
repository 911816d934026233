//! Character-sequence utilities shared by the dialect interpreters.
//!
//! All interpreter logic works on `Vec<char>` values, viewed as `Seq<char>`.
//! The helpers here (trimming, case folding, searching, splitting, numeric
//! parsing and formatting) each carry an exact specification.

use vstd::prelude::*;

verus! {

use vstd::std_specs::iter::IteratorSpec;

/// The whitespace characters recognized by the interpreters.
pub open spec fn is_ws_char(c: char) -> bool {
    c == ' ' || c == '\t' || c == '\r' || c == '\n'
}

pub fn is_ws(c: char) -> (r: bool)
    ensures
        r == is_ws_char(c),
{
    c == ' ' || c == '\t' || c == '\r' || c == '\n'
}

/// Uppercase folding of a single ASCII letter; other characters are unchanged.
pub open spec fn upper_char(c: char) -> char {
    if 97 <= c as u32 && c as u32 <= 122 {
        ((c as u32 - 32) as u8) as char
    } else {
        c
    }
}

/// Lowercase folding of a single ASCII letter; other characters are unchanged.
pub open spec fn lower_char(c: char) -> char {
    if 65 <= c as u32 && c as u32 <= 90 {
        ((c as u32 + 32) as u8) as char
    } else {
        c
    }
}

pub open spec fn upper_spec(s: Seq<char>) -> Seq<char> {
    s.map_values(|c: char| upper_char(c))
}

pub open spec fn lower_spec(s: Seq<char>) -> Seq<char> {
    s.map_values(|c: char| lower_char(c))
}

pub fn to_upper(s: &Vec<char>) -> (r: Vec<char>)
    ensures
        r@ == upper_spec(s@),
{
    let mut r: Vec<char> = Vec::new();
    let mut i: usize = 0;
    while i < s.len()
        invariant
            i <= s.len(),
            r@ == upper_spec(s@.take(i as int)),
        decreases s.len() - i,
    {
        let c = s[i];
        let u = c as u32;
        if 97 <= u && u <= 122 {
            r.push(((u - 32) as u8) as char);
        } else {
            r.push(c);
        }
        proof {
            assert(upper_spec(s@.take(i + 1 as int)) =~= upper_spec(s@.take(i as int)).push(
                upper_char(s@[i as int]),
            ));
        }
        i = i + 1;
    }
    proof {
        assert(s@.take(s@.len() as int) =~= s@);
    }
    r
}

pub fn to_lower(s: &Vec<char>) -> (r: Vec<char>)
    ensures
        r@ == lower_spec(s@),
{
    let mut r: Vec<char> = Vec::new();
    let mut i: usize = 0;
    while i < s.len()
        invariant
            i <= s.len(),
            r@ == lower_spec(s@.take(i as int)),
        decreases s.len() - i,
    {
        let c = s[i];
        let u = c as u32;
        if 65 <= u && u <= 90 {
            r.push(((u + 32) as u8) as char);
        } else {
            r.push(c);
        }
        proof {
            assert(lower_spec(s@.take(i + 1 as int)) =~= lower_spec(s@.take(i as int)).push(
                lower_char(s@[i as int]),
            ));
        }
        i = i + 1;
    }
    proof {
        assert(s@.take(s@.len() as int) =~= s@);
    }
    r
}

/// Number of whitespace characters at the start of `s`.
pub open spec fn ws_prefix_len(s: Seq<char>) -> nat
    decreases s.len(),
{
    if s.len() == 0 || !is_ws_char(s[0]) {
        0
    } else {
        1 + ws_prefix_len(s.drop_first())
    }
}

/// Number of whitespace characters at the end of `s`.
pub open spec fn ws_suffix_len(s: Seq<char>) -> nat
    decreases s.len(),
{
    if s.len() == 0 || !is_ws_char(s[s.len() - 1]) {
        0
    } else {
        1 + ws_suffix_len(s.drop_last())
    }
}

/// `s` with leading and trailing whitespace removed.
pub open spec fn trim_spec(s: Seq<char>) -> Seq<char> {
    let a = ws_prefix_len(s);
    if a == s.len() {
        Seq::empty()
    } else {
        s.subrange(a as int, s.len() - ws_suffix_len(s))
    }
}

proof fn lemma_ws_prefix_len(s: Seq<char>, k: int)
    requires
        0 <= k <= s.len(),
        forall|m: int| 0 <= m < k ==> is_ws_char(s[m]),
        k == s.len() || !is_ws_char(s[k]),
    ensures
        ws_prefix_len(s) == k,
    decreases k,
{
    if k == 0 {
    } else {
        lemma_ws_prefix_len(s.drop_first(), k - 1);
    }
}

proof fn lemma_ws_suffix_len(s: Seq<char>, k: int)
    requires
        0 <= k <= s.len(),
        forall|m: int| s.len() - k <= m < s.len() ==> is_ws_char(s[m]),
        k == s.len() || !is_ws_char(s[s.len() - k - 1]),
    ensures
        ws_suffix_len(s) == k,
    decreases k,
{
    if k == 0 {
    } else {
        lemma_ws_suffix_len(s.drop_last(), k - 1);
    }
}

/// If some position holds a non-whitespace character, the trailing whitespace
/// run ends strictly after it.
pub proof fn lemma_ws_suffix_len_bound(s: Seq<char>, i: int)
    requires
        0 <= i < s.len(),
        !is_ws_char(s[i]),
    ensures
        ws_suffix_len(s) <= s.len() - 1 - i,
    decreases s.len(),
{
    if s.len() > 0 && is_ws_char(s[s.len() - 1]) {
        lemma_ws_suffix_len_bound(s.drop_last(), i);
    }
}

pub fn trim(s: &Vec<char>) -> (r: Vec<char>)
    ensures
        r@ == trim_spec(s@),
{
    let n = s.len();
    let mut a: usize = 0;
    while a < n && is_ws(s[a])
        invariant
            n == s@.len(),
            a <= n,
            forall|m: int| 0 <= m < a ==> is_ws_char(s@[m]),
        decreases n - a,
    {
        a = a + 1;
    }
    proof {
        lemma_ws_prefix_len(s@, a as int);
    }
    if a == n {
        let r: Vec<char> = Vec::new();
        return r;
    }
    let mut b: usize = n;
    while b > a + 1 && is_ws(s[b - 1])
        invariant
            n == s@.len(),
            a < b <= n,
            forall|m: int| b <= m < n ==> is_ws_char(s@[m]),
        decreases b,
    {
        b = b - 1;
    }
    if is_ws(s[b - 1]) {
        // Only possible when b == a + 1; but s[a] is not whitespace.
        proof {
            assert(!is_ws_char(s@[a as int]));
        }
        let r: Vec<char> = Vec::new();
        return r;
    }
    proof {
        lemma_ws_suffix_len(s@, n - b);
    }
    let mut r: Vec<char> = Vec::new();
    let mut i: usize = a;
    while i < b
        invariant
            n == s@.len(),
            a <= i <= b <= n,
            r@ == s@.subrange(a as int, i as int),
        decreases b - i,
    {
        r.push(s[i]);
        proof {
            assert(s@.subrange(a as int, i + 1 as int) =~= s@.subrange(a as int, i as int).push(
                s@[i as int],
            ));
        }
        i = i + 1;
    }
    r
}

/// A copy of `s@.subrange(from, to)`.
pub fn subrange_vec(s: &Vec<char>, from: usize, to: usize) -> (r: Vec<char>)
    requires
        from <= to <= s@.len(),
    ensures
        r@ == s@.subrange(from as int, to as int),
{
    let mut r: Vec<char> = Vec::new();
    let mut i: usize = from;
    while i < to
        invariant
            from <= i <= to <= s@.len(),
            r@ == s@.subrange(from as int, i as int),
        decreases to - i,
    {
        r.push(s[i]);
        proof {
            assert(s@.subrange(from as int, i + 1 as int) =~= s@.subrange(
                from as int,
                i as int,
            ).push(s@[i as int]));
        }
        i = i + 1;
    }
    r
}

/// `s` with its first `k` characters removed; shorter sequences give empty.
pub open spec fn skip_spec(s: Seq<char>, k: int) -> Seq<char> {
    if k >= s.len() {
        Seq::empty()
    } else {
        s.subrange(k, s.len() as int)
    }
}

pub fn skip_chars(s: &Vec<char>, k: usize) -> (r: Vec<char>)
    ensures
        r@ == skip_spec(s@, k as int),
{
    if k >= s.len() {
        proof {
            assert(skip_spec(s@, k as int) =~= Seq::<char>::empty());
        }
        Vec::new()
    } else {
        subrange_vec(s, k, s.len())
    }
}

pub fn concat_chars(a: &Vec<char>, b: &Vec<char>) -> (r: Vec<char>)
    ensures
        r@ == a@ + b@,
{
    let mut r: Vec<char> = Vec::new();
    let mut i: usize = 0;
    while i < a.len()
        invariant
            i <= a@.len(),
            r@ == a@.take(i as int),
        decreases a.len() - i,
    {
        r.push(a[i]);
        i = i + 1;
    }
    proof {
        assert(a@.take(a@.len() as int) =~= a@);
    }
    let mut j: usize = 0;
    while j < b.len()
        invariant
            j <= b@.len(),
            r@ == a@ + b@.take(j as int),
        decreases b.len() - j,
    {
        r.push(b[j]);
        proof {
            assert(a@ + b@.take(j + 1 as int) =~= (a@ + b@.take(j as int)).push(b@[j as int]));
        }
        j = j + 1;
    }
    proof {
        assert(b@.take(b@.len() as int) =~= b@);
    }
    r
}

pub fn eq_chars(a: &Vec<char>, b: &Vec<char>) -> (r: bool)
    ensures
        r == (a@ == b@),
{
    if a.len() != b.len() {
        proof {
            assert(a@ != b@);
        }
        return false;
    }
    let mut i: usize = 0;
    while i < a.len()
        invariant
            a@.len() == b@.len(),
            i <= a@.len(),
            forall|m: int| 0 <= m < i ==> a@[m] == b@[m],
        decreases a.len() - i,
    {
        if a[i] != b[i] {
            proof {
                assert(a@ != b@);
            }
            return false;
        }
        i = i + 1;
    }
    proof {
        assert(a@ =~= b@);
    }
    true
}

/// `p` is a prefix of `s`.
pub open spec fn starts_with_spec(s: Seq<char>, p: Seq<char>) -> bool {
    p.len() <= s.len() && s.take(p.len() as int) == p
}

pub fn starts_with(s: &Vec<char>, p: &Vec<char>) -> (r: bool)
    ensures
        r == starts_with_spec(s@, p@),
{
    if p.len() > s.len() {
        return false;
    }
    let mut i: usize = 0;
    while i < p.len()
        invariant
            p@.len() <= s@.len(),
            i <= p@.len(),
            forall|m: int| 0 <= m < i ==> s@[m] == p@[m],
        decreases p.len() - i,
    {
        if s[i] != p[i] {
            proof {
                assert(s@.take(p@.len() as int)[i as int] != p@[i as int]);
            }
            return false;
        }
        i = i + 1;
    }
    proof {
        assert(s@.take(p@.len() as int) =~= p@);
    }
    true
}

/// The first position of `c` in `s`, if any.
pub open spec fn find_char_spec(s: Seq<char>, c: char) -> Option<int> {
    if exists|i: int| 0 <= i < s.len() && s[i] == c {
        Some(choose|i: int| 0 <= i < s.len() && s[i] == c && forall|j: int| 0 <= j < i ==> s[j] != c)
    } else {
        None
    }
}

pub fn find_char(s: &Vec<char>, c: char) -> (r: Option<usize>)
    ensures
        match r {
            Some(i) => i < s@.len() && s@[i as int] == c && forall|j: int|
                0 <= j < i ==> s@[j] != c,
            None => forall|j: int| 0 <= j < s@.len() ==> s@[j] != c,
        },
{
    let mut i: usize = 0;
    while i < s.len()
        invariant
            i <= s@.len(),
            forall|j: int| 0 <= j < i ==> s@[j] != c,
        decreases s.len() - i,
    {
        if s[i] == c {
            return Some(i);
        }
        i = i + 1;
    }
    None
}

/// `p` occurs in `s` starting at position `i`.
pub open spec fn match_at(s: Seq<char>, p: Seq<char>, i: int) -> bool {
    0 <= i && i + p.len() <= s.len() && s.subrange(i, i + p.len()) == p
}

/// `p` occurs somewhere in `s`.
pub open spec fn contains_spec(s: Seq<char>, p: Seq<char>) -> bool {
    exists|i: int| match_at(s, p, i)
}

fn match_at_exec(s: &Vec<char>, p: &Vec<char>, i: usize) -> (r: bool)
    requires
        i + p@.len() <= s@.len(),
    ensures
        r == match_at(s@, p@, i as int),
{
    let n = s.len();
    let mut m: usize = 0;
    while m < p.len()
        invariant
            n == s@.len(),
            i + p@.len() <= s@.len(),
            m <= p@.len(),
            forall|j: int| 0 <= j < m ==> s@[i + j] == p@[j],
        decreases p.len() - m,
    {
        if s[i + m] != p[m] {
            proof {
                assert(s@.subrange(i as int, i + p@.len())[m as int] != p@[m as int]);
            }
            return false;
        }
        m = m + 1;
    }
    proof {
        assert(s@.subrange(i as int, i + p@.len()) =~= p@);
    }
    true
}

/// The first position where `p` occurs in `s`, if any.
pub fn find_sub(s: &Vec<char>, p: &Vec<char>) -> (r: Option<usize>)
    ensures
        match r {
            Some(i) => match_at(s@, p@, i as int) && forall|j: int|
                0 <= j < i ==> !match_at(s@, p@, j),
            None => forall|j: int| !match_at(s@, p@, j),
        },
{
    if p.len() > s.len() {
        return None;
    }
    let last = s.len() - p.len();
    let mut i: usize = 0;
    loop
        invariant
            p@.len() <= s@.len(),
            last == s@.len() - p@.len(),
            i <= last,
            forall|j: int| 0 <= j < i ==> !match_at(s@, p@, j),
        decreases last - i,
    {
        if match_at_exec(s, p, i) {
            return Some(i);
        }
        if i == last {
            proof {
                assert(forall|j: int| j > last ==> !match_at(s@, p@, j));
            }
            return None;
        }
        i = i + 1;
    }
}

pub fn contains_sub(s: &Vec<char>, p: &Vec<char>) -> (r: bool)
    ensures
        r == contains_spec(s@, p@),
{
    match find_sub(s, p) {
        Some(_) => true,
        None => false,
    }
}

/// `s` ends with character `c`.
pub open spec fn ends_with_char(s: Seq<char>, c: char) -> bool {
    s.len() > 0 && s[s.len() - 1] == c
}

pub fn ends_with(s: &Vec<char>, c: char) -> (r: bool)
    ensures
        r == ends_with_char(s@, c),
{
    s.len() > 0 && s[s.len() - 1] == c
}

/// `s` with every trailing occurrence of `c` removed.
pub open spec fn trim_end_char_spec(s: Seq<char>, c: char) -> Seq<char>
    decreases s.len(),
{
    if s.len() > 0 && s[s.len() - 1] == c {
        trim_end_char_spec(s.drop_last(), c)
    } else {
        s
    }
}

proof fn lemma_trim_end_char(s: Seq<char>, c: char, b: int)
    requires
        0 <= b <= s.len(),
        forall|m: int| b <= m < s.len() ==> s[m] == c,
        b == 0 || s[b - 1] != c,
    ensures
        trim_end_char_spec(s, c) == s.subrange(0, b),
    decreases s.len(),
{
    if s.len() > 0 && s[s.len() - 1] == c {
        lemma_trim_end_char(s.drop_last(), c, b);
        assert(s.drop_last() =~= s.subrange(0, s.len() - 1));
        assert(s.drop_last().subrange(0, b) =~= s.subrange(0, b));
    } else {
        assert(s.subrange(0, s.len() as int) =~= s);
    }
}

pub fn trim_end_matches_char(s: &Vec<char>, c: char) -> (r: Vec<char>)
    ensures
        r@ == trim_end_char_spec(s@, c),
{
    let mut b: usize = s.len();
    while b > 0 && s[b - 1] == c
        invariant
            b <= s@.len(),
            forall|m: int| b <= m < s@.len() ==> s@[m] == c,
        decreases b,
    {
        b = b - 1;
    }
    proof {
        lemma_trim_end_char(s@, c, b as int);
    }
    subrange_vec(s, 0, b)
}

/// Length of the maximal non-whitespace run at the start of `s`.
pub open spec fn token_len(s: Seq<char>) -> nat
    decreases s.len(),
{
    if s.len() == 0 || is_ws_char(s[0]) {
        0
    } else {
        1 + token_len(s.drop_first())
    }
}

proof fn lemma_token_len_le(s: Seq<char>)
    ensures
        token_len(s) <= s.len(),
    decreases s.len(),
{
    if s.len() > 0 && !is_ws_char(s[0]) {
        lemma_token_len_le(s.drop_first());
    }
}

/// The whitespace-separated tokens of `s`, in order.
pub open spec fn tokens_spec(s: Seq<char>) -> Seq<Seq<char>>
    decreases s.len(),
    via tokens_spec_decreases
{
    if s.len() == 0 {
        Seq::empty()
    } else if is_ws_char(s[0]) {
        tokens_spec(s.drop_first())
    } else {
        seq![s.take(token_len(s) as int)] + tokens_spec(s.skip(token_len(s) as int))
    }
}

#[via_fn]
proof fn tokens_spec_decreases(s: Seq<char>) {
    lemma_token_len_le(s);
}

proof fn lemma_token_len(s: Seq<char>, k: int)
    requires
        0 <= k <= s.len(),
        forall|m: int| 0 <= m < k ==> !is_ws_char(s[m]),
        k == s.len() || is_ws_char(s[k]),
    ensures
        token_len(s) == k,
    decreases k,
{
    if k == 0 {
    } else {
        lemma_token_len(s.drop_first(), k - 1);
    }
}

pub fn split_ws(s: &Vec<char>) -> (r: Vec<Vec<char>>)
    ensures
        r.deep_view() == tokens_spec(s@),
{
    let n = s.len();
    let mut r: Vec<Vec<char>> = Vec::new();
    proof {
        assert(skip_spec(s@, 0) =~= s@);
        assert(r.deep_view() =~= Seq::<Seq<char>>::empty());
        assert(r.deep_view() + tokens_spec(s@) =~= tokens_spec(s@));
    }
    let mut i: usize = 0;
    while i < n
        invariant
            n == s@.len(),
            i <= n,
            tokens_spec(s@) == r.deep_view() + tokens_spec(skip_spec(s@, i as int)),
        decreases n - i,
    {
        if is_ws(s[i]) {
            proof {
                assert(skip_spec(s@, i as int).drop_first() =~= skip_spec(s@, i + 1 as int));
            }
            i = i + 1;
        } else {
            let mut j: usize = i + 1;
            while j < n && !is_ws(s[j])
                invariant
                    n == s@.len(),
                    i < j <= n,
                    forall|m: int| i <= m < j ==> !is_ws_char(s@[m]),
                decreases n - j,
            {
                j = j + 1;
            }
            let tok = subrange_vec(s, i, j);
            proof {
                lemma_token_len(skip_spec(s@, i as int), j - i);
                assert(skip_spec(s@, i as int).take(j - i) =~= s@.subrange(i as int, j as int));
                assert(skip_spec(s@, i as int).skip(j - i) =~= skip_spec(s@, j as int));
            }
            let ghost old_r = r.deep_view();
            let ghost tokv = tok@;
            proof {
                assert(tok.deep_view() =~= tokv);
            }
            r.push(tok);
            proof {
                assert(r.deep_view() =~= old_r.push(tokv));
                assert(old_r.push(tokv) =~= old_r + seq![tokv]);
                assert(r.deep_view() + tokens_spec(skip_spec(s@, j as int)) =~= tokens_spec(s@));
            }
            i = j;
        }
    }
    proof {
        assert(skip_spec(s@, n as int) =~= Seq::<char>::empty());
        assert(r.deep_view() + tokens_spec(skip_spec(s@, n as int)) =~= r.deep_view());
    }
    r
}

/// A token that neither starts nor ends with a double quote.
pub open spec fn plain_token(t: Seq<char>) -> bool {
    !(t.len() > 0 && t[0] == '"') && !(t.len() > 0 && t[t.len() - 1] == '"')
}

/// The first token in `ts` that is plain (carries no quote at either end).
pub open spec fn first_plain_token(ts: Seq<Seq<char>>) -> Option<Seq<char>>
    decreases ts.len(),
{
    if ts.len() == 0 {
        None
    } else if plain_token(ts[0]) {
        Some(ts[0])
    } else {
        first_plain_token(ts.drop_first())
    }
}

proof fn lemma_first_plain_token_skip(ts: Seq<Seq<char>>, i: int)
    requires
        0 <= i <= ts.len(),
        forall|m: int| 0 <= m < i ==> !plain_token(ts[m]),
    ensures
        first_plain_token(ts) == first_plain_token(ts.skip(i)),
    decreases i,
{
    if i > 0 {
        lemma_first_plain_token_skip(ts.drop_first(), i - 1);
        assert(ts.drop_first().skip(i - 1) =~= ts.skip(i));
    } else {
        assert(ts.skip(0) =~= ts);
    }
}

fn token_is_plain(t: &Vec<char>) -> (r: bool)
    ensures
        r == plain_token(t@),
{
    let n = t.len();
    if n == 0 {
        return true;
    }
    t[0] != '"' && t[n - 1] != '"'
}

/// The first whitespace-separated token of `s` that is not quoted at either
/// end, if any.
pub fn first_plain_token_of(s: &Vec<char>) -> (r: Option<Vec<char>>)
    ensures
        match r {
            Some(t) => first_plain_token(tokens_spec(s@)) == Some(t@),
            None => first_plain_token(tokens_spec(s@)) is None,
        },
{
    let toks = split_ws(s);
    let ghost ts = tokens_spec(s@);
    let mut i: usize = 0;
    while i < toks.len()
        invariant
            ts == tokens_spec(s@),
            toks.deep_view() == ts,
            i <= toks@.len(),
            forall|m: int| 0 <= m < i ==> !plain_token(ts[m]),
        decreases toks.len() - i,
    {
        proof {
            assert(toks.deep_view()[i as int] == toks@[i as int].deep_view());
            assert(toks@[i as int].deep_view() =~= toks@[i as int]@);
        }
        if token_is_plain(&toks[i]) {
            proof {
                lemma_first_plain_token_skip(ts, i as int);
                assert(ts.skip(i as int)[0] == ts[i as int]);
                assert(first_plain_token(ts.skip(i as int)) == Some(ts[i as int]));
            }
            let t = subrange_vec(&toks[i], 0, toks[i].len());
            proof {
                assert(t@ =~= toks@[i as int]@);
                assert(t@ == ts[i as int]);
                assert(first_plain_token(tokens_spec(s@)) == Some(t@));
            }
            return Some(t);
        }
        i = i + 1;
    }
    proof {
        lemma_first_plain_token_skip(ts, i as int);
        assert(ts.skip(i as int) =~= Seq::<Seq<char>>::empty());
    }
    None
}

// --- first occurrences, as spec-level recursions ---------------------------

/// The first position of `c` in `s`.
pub open spec fn find_char_rec(s: Seq<char>, c: char) -> Option<int>
    decreases s.len(),
{
    if s.len() == 0 {
        None
    } else if s[0] == c {
        Some(0)
    } else {
        match find_char_rec(s.drop_first(), c) {
            Some(i) => Some(i + 1),
            None => None,
        }
    }
}

pub proof fn lemma_find_char_rec_some(s: Seq<char>, c: char, i: int)
    requires
        0 <= i < s.len(),
        s[i] == c,
        forall|j: int| 0 <= j < i ==> s[j] != c,
    ensures
        find_char_rec(s, c) == Some(i),
    decreases i,
{
    if i > 0 {
        lemma_find_char_rec_some(s.drop_first(), c, i - 1);
    }
}

pub proof fn lemma_find_char_rec_none(s: Seq<char>, c: char)
    requires
        forall|j: int| 0 <= j < s.len() ==> s[j] != c,
    ensures
        find_char_rec(s, c) is None,
    decreases s.len(),
{
    if s.len() > 0 {
        lemma_find_char_rec_none(s.drop_first(), c);
    }
}

/// As `find_char`, with the first position stated through `find_char_rec`.
pub fn find_char_at(s: &Vec<char>, c: char) -> (r: Option<usize>)
    ensures
        match r {
            Some(i) => find_char_rec(s@, c) == Some(i as int),
            None => find_char_rec(s@, c) is None,
        },
{
    match find_char(s, c) {
        Some(i) => {
            proof {
                lemma_find_char_rec_some(s@, c, i as int);
            }
            Some(i)
        },
        None => {
            proof {
                lemma_find_char_rec_none(s@, c);
            }
            None
        },
    }
}

/// The first position where `p` occurs in `s`.
pub open spec fn find_sub_rec(s: Seq<char>, p: Seq<char>) -> Option<int>
    decreases s.len(),
{
    if s.len() < p.len() {
        None
    } else if s.take(p.len() as int) == p {
        Some(0)
    } else if s.len() == 0 {
        None
    } else {
        match find_sub_rec(s.drop_first(), p) {
            Some(i) => Some(i + 1),
            None => None,
        }
    }
}

proof fn lemma_match_at_shift(s: Seq<char>, p: Seq<char>, i: int)
    requires
        s.len() > 0,
        1 <= i,
    ensures
        match_at(s, p, i) == match_at(s.drop_first(), p, i - 1),
{
    if 0 <= i && i + p.len() <= s.len() {
        assert(s.drop_first().subrange(i - 1, i - 1 + p.len()) =~= s.subrange(i, i + p.len()));
    }
}

proof fn lemma_find_sub_rec_some(s: Seq<char>, p: Seq<char>, i: int)
    requires
        match_at(s, p, i),
        forall|j: int| 0 <= j < i ==> !match_at(s, p, j),
    ensures
        find_sub_rec(s, p) == Some(i),
    decreases i,
{
    assert(s.subrange(0, p.len() as int) =~= s.take(p.len() as int));
    if i == 0 {
    } else {
        assert(!match_at(s, p, 0));
        assert(s.take(p.len() as int) != p);
        assert forall|j: int| 0 <= j < i - 1 implies !match_at(s.drop_first(), p, j) by {
            lemma_match_at_shift(s, p, j + 1);
        }
        lemma_match_at_shift(s, p, i);
        lemma_find_sub_rec_some(s.drop_first(), p, i - 1);
    }
}

proof fn lemma_find_sub_rec_none(s: Seq<char>, p: Seq<char>)
    requires
        forall|j: int| !match_at(s, p, j),
    ensures
        find_sub_rec(s, p) is None,
    decreases s.len(),
{
    if s.len() >= p.len() {
        assert(!match_at(s, p, 0));
        assert(s.take(p.len() as int) =~= s.subrange(0, p.len() as int));
        assert(s.take(p.len() as int) != p);
        if s.len() > 0 {
            assert forall|j: int| !match_at(s.drop_first(), p, j) by {
                if j >= 1 {
                    lemma_match_at_shift(s, p, j + 1);
                } else if j == 0 {
                    lemma_match_at_shift(s, p, 1);
                }
            }
            lemma_find_sub_rec_none(s.drop_first(), p);
        }
    }
}

/// As `find_sub`, with the first position stated through `find_sub_rec`.
pub fn find_sub_at(s: &Vec<char>, p: &Vec<char>) -> (r: Option<usize>)
    ensures
        match r {
            Some(i) => find_sub_rec(s@, p@) == Some(i as int),
            None => find_sub_rec(s@, p@) is None,
        },
{
    match find_sub(s, p) {
        Some(i) => {
            proof {
                lemma_find_sub_rec_some(s@, p@, i as int);
            }
            Some(i)
        },
        None => {
            proof {
                lemma_find_sub_rec_none(s@, p@);
            }
            None
        },
    }
}

/// What `find_char_rec` returns, characterized: the first position of `c`.
pub proof fn lemma_find_char_rec_props(s: Seq<char>, c: char)
    ensures
        match find_char_rec(s, c) {
            Some(i) => 0 <= i < s.len() && s[i] == c && forall|j: int| 0 <= j < i ==> s[j] != c,
            None => forall|j: int| 0 <= j < s.len() ==> s[j] != c,
        },
    decreases s.len(),
{
    if s.len() > 0 && s[0] != c {
        lemma_find_char_rec_props(s.drop_first(), c);
        match find_char_rec(s.drop_first(), c) {
            Some(i) => {
                assert(s[i + 1] == c);
                assert forall|j: int| 0 <= j < i + 1 implies s[j] != c by {
                    if j >= 1 {
                        assert(s.drop_first()[j - 1] != c);
                    }
                }
            },
            None => {
                assert forall|j: int| 0 <= j < s.len() implies s[j] != c by {
                    if j >= 1 {
                        assert(s.drop_first()[j - 1] != c);
                    }
                }
            },
        }
    }
}

/// What `find_sub_rec` returns, characterized: the first occurrence of `p`.
pub proof fn lemma_find_sub_rec_props(s: Seq<char>, p: Seq<char>)
    ensures
        match find_sub_rec(s, p) {
            Some(i) => match_at(s, p, i) && forall|j: int| 0 <= j < i ==> !match_at(s, p, j),
            None => forall|j: int| !match_at(s, p, j),
        },
    decreases s.len(),
{
    assert(s.subrange(0, p.len() as int) =~= s.take(p.len() as int));
    if s.len() >= p.len() && s.take(p.len() as int) != p && s.len() > 0 {
        lemma_find_sub_rec_props(s.drop_first(), p);
        match find_sub_rec(s.drop_first(), p) {
            Some(i) => {
                lemma_match_at_shift(s, p, i + 1);
                assert forall|j: int| 0 <= j < i + 1 implies !match_at(s, p, j) by {
                    if j >= 1 {
                        lemma_match_at_shift(s, p, j);
                    }
                }
            },
            None => {
                assert forall|j: int| !match_at(s, p, j) by {
                    if j >= 1 {
                        lemma_match_at_shift(s, p, j);
                    }
                }
            },
        }
    } else if s.len() < p.len() {
        assert forall|j: int| !match_at(s, p, j) by {}
    }
}

/// The text between the first pair of `q` characters in `line`, if both
/// occur.
pub open spec fn quoted_between(line: Seq<char>, q: char) -> Option<Seq<char>> {
    match find_char_rec(line, q) {
        None => None,
        Some(i) => match find_char_rec(line.skip(i + 1), q) {
            None => None,
            Some(k) => Some(line.subrange(i + 1, i + 1 + k)),
        },
    }
}

pub fn quoted_between_exec(line: &Vec<char>, q: char) -> (r: Option<Vec<char>>)
    ensures
        match r {
            Some(v) => quoted_between(line@, q) == Some(v@),
            None => quoted_between(line@, q) is None,
        },
{
    match find_char(line, q) {
        None => {
            proof {
                lemma_find_char_rec_none(line@, q);
            }
            None
        },
        Some(i) => {
            proof {
                lemma_find_char_rec_some(line@, q, i as int);
            }
            let n = line.len();
            proof {
                assert(i < n);
            }
            let rest = skip_chars(line, i + 1);
            proof {
                assert(rest@ =~= line@.skip(i + 1));
            }
            match find_char(&rest, q) {
                None => {
                    proof {
                        lemma_find_char_rec_none(rest@, q);
                    }
                    None
                },
                Some(k) => {
                    proof {
                        lemma_find_char_rec_some(rest@, q, k as int);
                    }
                    Some(subrange_vec(line, i + 1, i + 1 + k))
                },
            }
        },
    }
}

/// A copy of `s`.
pub fn copy_chars(s: &Vec<char>) -> (r: Vec<char>)
    ensures
        r@ == s@,
{
    let r = subrange_vec(s, 0, s.len());
    proof {
        assert(r@ =~= s@);
    }
    r
}

/// A copy of a list of lines.
pub fn copy_lines(v: &Vec<Vec<char>>) -> (r: Vec<Vec<char>>)
    ensures
        r.deep_view() == v.deep_view(),
{
    let mut r: Vec<Vec<char>> = Vec::new();
    proof {
        assert(r.deep_view() =~= v.deep_view().take(0));
    }
    let mut i: usize = 0;
    while i < v.len()
        invariant
            i <= v@.len(),
            r.deep_view() == v.deep_view().take(i as int),
        decreases v.len() - i,
    {
        let c = copy_chars(&v[i]);
        let ghost cv = c@;
        let ghost base_r = r.deep_view();
        proof {
            assert(c.deep_view() =~= cv);
            assert(v@[i as int].deep_view() =~= v@[i as int]@);
        }
        r.push(c);
        proof {
            assert(r.deep_view() =~= base_r.push(cv));
            assert(base_r.push(cv) =~= v.deep_view().take(i + 1 as int));
        }
        i = i + 1;
    }
    proof {
        assert(v.deep_view().take(v@.len() as int) =~= v.deep_view());
    }
    r
}

/// Appends one transcript line, stated over the deep view.
pub fn push_line(out: &mut Vec<Vec<char>>, line: Vec<char>)
    ensures
        final(out).deep_view() == old(out).deep_view().push(line@),
{
    let ghost lv = line@;
    proof {
        assert(line.deep_view() =~= lv);
    }
    out.push(line);
    proof {
        assert(out.deep_view() =~= old(out).deep_view().push(lv));
    }
}

// --- line splitting --------------------------------------------------------

/// Length of the first line of `s` (up to a newline or the end).
pub open spec fn line_len(s: Seq<char>) -> nat
    decreases s.len(),
{
    if s.len() == 0 || s[0] == '\n' {
        0
    } else {
        1 + line_len(s.drop_first())
    }
}

proof fn lemma_line_len_le(s: Seq<char>)
    ensures
        line_len(s) <= s.len(),
    decreases s.len(),
{
    if s.len() > 0 && s[0] != '\n' {
        lemma_line_len_le(s.drop_first());
    }
}

proof fn lemma_line_len(s: Seq<char>, k: int)
    requires
        0 <= k <= s.len(),
        forall|m: int| 0 <= m < k ==> s[m] != '\n',
        k == s.len() || s[k] == '\n',
    ensures
        line_len(s) == k,
    decreases k,
{
    if k > 0 {
        lemma_line_len(s.drop_first(), k - 1);
    }
}

/// The lines of `s`, split on newline characters; a trailing newline does
/// not open a final empty line.
pub open spec fn split_lines_spec(s: Seq<char>) -> Seq<Seq<char>>
    decreases s.len(),
    via split_lines_spec_decreases
{
    if s.len() == 0 {
        Seq::empty()
    } else {
        let k = line_len(s);
        if k == s.len() {
            seq![s]
        } else {
            seq![s.take(k as int)] + split_lines_spec(s.skip(k as int + 1))
        }
    }
}

#[via_fn]
proof fn split_lines_spec_decreases(s: Seq<char>) {
    lemma_line_len_le(s);
}

pub fn split_lines(s: &Vec<char>) -> (r: Vec<Vec<char>>)
    ensures
        r.deep_view() == split_lines_spec(s@),
{
    let n = s.len();
    let mut r: Vec<Vec<char>> = Vec::new();
    proof {
        assert(skip_spec(s@, 0) =~= s@);
        assert(r.deep_view() =~= Seq::<Seq<char>>::empty());
        assert(r.deep_view() + split_lines_spec(s@) =~= split_lines_spec(s@));
    }
    let mut i: usize = 0;
    while i < n
        invariant
            n == s@.len(),
            i <= n,
            split_lines_spec(s@) == r.deep_view() + split_lines_spec(skip_spec(s@, i as int)),
        decreases n - i,
    {
        let mut j: usize = i;
        while j < n && s[j] != '\n'
            invariant
                n == s@.len(),
                i <= j <= n,
                forall|m: int| i <= m < j ==> s@[m] != '\n',
            decreases n - j,
        {
            j = j + 1;
        }
        let line = subrange_vec(s, i, j);
        proof {
            lemma_line_len(skip_spec(s@, i as int), j - i);
            assert(skip_spec(s@, i as int).take(j - i) =~= s@.subrange(i as int, j as int));
        }
        let ghost old_r = r.deep_view();
        let ghost linev = line@;
        proof {
            assert(line.deep_view() =~= linev);
        }
        r.push(line);
        proof {
            assert(r.deep_view() =~= old_r.push(linev));
            assert(old_r.push(linev) =~= old_r + seq![linev]);
        }
        if j == n {
            proof {
                let t = skip_spec(s@, i as int);
                assert(t =~= s@.subrange(i as int, j as int));
                assert(line_len(t) == t.len());
                assert(split_lines_spec(t) == seq![linev]);
                assert(r.deep_view() + split_lines_spec(skip_spec(s@, n as int)) =~= r.deep_view());
                assert(r.deep_view() =~= old_r + seq![linev]);
            }
            i = n;
        } else {
            proof {
                let t = skip_spec(s@, i as int);
                assert(line_len(t) == j - i < t.len());
                assert(t.take(j - i) == linev);
                assert(t.skip(j - i + 1) =~= skip_spec(s@, j + 1 as int));
                assert(split_lines_spec(t) == seq![linev] + split_lines_spec(
                    skip_spec(s@, j + 1 as int),
                ));
                assert(r.deep_view() + split_lines_spec(skip_spec(s@, j + 1 as int))
                    =~= split_lines_spec(s@));
            }
            i = j + 1;
        }
    }
    proof {
        assert(skip_spec(s@, n as int) =~= Seq::<char>::empty());
        assert(r.deep_view() + split_lines_spec(skip_spec(s@, n as int)) =~= r.deep_view());
    }
    r
}

/// Every occurrence of `f` in `s` replaced by `r`, scanning left to right
/// without overlap; an empty pattern leaves `s` unchanged.
pub open spec fn replace_spec(s: Seq<char>, f: Seq<char>, r: Seq<char>) -> Seq<char>
    decreases s.len(),
    via replace_spec_decreases
{
    if f.len() == 0 {
        s
    } else {
        match find_sub_rec(s, f) {
            None => s,
            Some(i) => s.take(i) + r + replace_spec(s.skip(i + f.len()), f, r),
        }
    }
}

#[via_fn]
proof fn replace_spec_decreases(s: Seq<char>, f: Seq<char>, r: Seq<char>) {
    lemma_find_sub_rec_props(s, f);
}

/// Replaces every occurrence of `f` in `s` by `r`.
pub fn replace_all(s: &Vec<char>, f: &Vec<char>, r: &Vec<char>) -> (res: Vec<char>)
    ensures
        res@ == replace_spec(s@, f@, r@),
{
    if f.len() == 0 {
        return copy_chars(s);
    }
    let mut acc: Vec<char> = Vec::new();
    let mut rem = copy_chars(s);
    proof {
        assert(acc@ + replace_spec(rem@, f@, r@) =~= replace_spec(s@, f@, r@));
    }
    loop
        invariant
            f@.len() > 0,
            replace_spec(s@, f@, r@) == acc@ + replace_spec(rem@, f@, r@),
        decreases rem@.len(),
    {
        match find_sub_at(&rem, f) {
            None => {
                let mut tail = rem;
                acc.append(&mut tail);
                proof {
                    assert(acc@ =~= replace_spec(s@, f@, r@));
                }
                return acc;
            },
            Some(i) => {
                proof {
                    lemma_find_sub_rec_props(rem@, f@);
                }
                let fl = f.len();
                let rn = rem.len();
                proof {
                    assert(i + fl <= rn);
                }
                let mut head = subrange_vec(&rem, 0, i);
                acc.append(&mut head);
                let mut mid = copy_chars(r);
                acc.append(&mut mid);
                let next = skip_chars(&rem, i + fl);
                proof {
                    assert(rem@.subrange(0, i as int) =~= rem@.take(i as int));
                    assert(next@ =~= rem@.skip(i + f@.len()));
                    assert(acc@ + replace_spec(next@, f@, r@) =~= replace_spec(s@, f@, r@));
                }
                rem = next;
            },
        }
    }
}

/// Transcript lines joined with newlines.
pub open spec fn join_lines_spec(ls: Seq<Seq<char>>) -> Seq<char>
    decreases ls.len(),
{
    if ls.len() == 0 {
        Seq::empty()
    } else if ls.len() == 1 {
        ls[0]
    } else {
        ls[0] + seq!['\n'] + join_lines_spec(ls.drop_first())
    }
}

proof fn lemma_join_snoc(ls: Seq<Seq<char>>, x: Seq<char>)
    requires
        ls.len() >= 1,
    ensures
        join_lines_spec(ls.push(x)) == join_lines_spec(ls) + seq!['\n'] + x,
    decreases ls.len(),
{
    if ls.len() == 1 {
        assert(ls.push(x)[0] == ls[0]);
        assert(ls.push(x).drop_first() =~= seq![x]);
        assert(join_lines_spec(seq![x]) == x);
    } else {
        lemma_join_snoc(ls.drop_first(), x);
        assert(ls.push(x).drop_first() =~= ls.drop_first().push(x));
        assert(ls[0] + seq!['\n'] + (join_lines_spec(ls.drop_first()) + seq!['\n'] + x) =~= (ls[0]
            + seq!['\n'] + join_lines_spec(ls.drop_first())) + seq!['\n'] + x);
    }
}

/// Joins transcript lines with newlines, as the display layer shows them.
pub fn join_lines(ls: &Vec<Vec<char>>) -> (r: Vec<char>)
    ensures
        r@ == join_lines_spec(ls.deep_view()),
{
    let mut r: Vec<char> = Vec::new();
    let n = ls.len();
    let mut i: usize = 0;
    while i < n
        invariant
            n == ls@.len(),
            i <= n,
            r@ == join_lines_spec(ls.deep_view().take(i as int)),
        decreases n - i,
    {
        proof {
            assert(ls@[i as int].deep_view() =~= ls@[i as int]@);
        }
        if i == 0 {
            r = copy_chars(&ls[0]);
            proof {
                assert(ls.deep_view().take(1) =~= seq![ls.deep_view()[0]]);
                assert(join_lines_spec(seq![ls.deep_view()[0]]) == ls.deep_view()[0]);
            }
        } else {
            let mut line = copy_chars(&ls[i]);
            r.push('\n');
            r.append(&mut line);
            proof {
                lemma_join_snoc(ls.deep_view().take(i as int), ls.deep_view()[i as int]);
                assert(ls.deep_view().take(i as int).push(ls.deep_view()[i as int])
                    =~= ls.deep_view().take(i + 1 as int));
                assert(r@ =~= join_lines_spec(ls.deep_view().take(i as int)) + seq!['\n']
                    + ls.deep_view()[i as int]);
            }
        }
        i = i + 1;
    }
    proof {
        assert(ls.deep_view().take(n as int) =~= ls.deep_view());
    }
    r
}

// --- characters of a borrowed string ---------------------------------------

/// The characters of `s` as a vector, built through the standard character
/// iterator, whose behaviour vstd specifies.
pub fn chars_of(s: &str) -> (r: Vec<char>)
    ensures
        r@ == s@,
{
    broadcast use vstd::string::axiom_spec_iter;

    let mut it = s.chars();
    let mut r: Vec<char> = Vec::new();
    loop
        invariant
            it.obeys_prophetic_iter_laws(),
            IteratorSpec::decrease(&it) is Some,
            r@ + IteratorSpec::remaining(&it) == s@,
        decreases IteratorSpec::decrease(&it)->0,
    {
        broadcast use vstd::string::next_postcondition;

        let ghost old_rem = IteratorSpec::remaining(&it);
        match it.next() {
            Some(c) => {
                r.push(c);
                proof {
                    assert(r@ + IteratorSpec::remaining(&it) =~= s@);
                }
            },
            None => {
                proof {
                    assert(old_rem.len() == 0);
                    assert(r@ =~= s@);
                }
                return r;
            },
        }
    }
}

// --- numeric parsing -------------------------------------------------------

pub open spec fn is_digit_char(c: char) -> bool {
    48 <= c as u32 && c as u32 <= 57
}

pub open spec fn digit_val(c: char) -> int {
    c as u32 - 48
}

/// `s` is non-empty and all decimal digits.
pub open spec fn all_digits(s: Seq<char>) -> bool {
    s.len() > 0 && forall|i: int| 0 <= i < s.len() ==> is_digit_char(s[i])
}

/// The value of a digit string, most significant digit first.
pub open spec fn digits_val(s: Seq<char>) -> int
    decreases s.len(),
{
    if s.len() == 0 {
        0
    } else {
        digits_val(s.drop_last()) * 10 + digit_val(s.last())
    }
}

/// `s` without one optional leading `+`.
pub open spec fn unsigned_body(s: Seq<char>) -> Seq<char> {
    if s.len() > 0 && s[0] == '+' {
        s.drop_first()
    } else {
        s
    }
}

/// What `parse` of an unsigned 32-bit integer accepts: an optional `+`,
/// then only digits, with the value in range.
pub open spec fn parse_u32_spec(s: Seq<char>) -> Option<u32> {
    let d = unsigned_body(s);
    if all_digits(d) && digits_val(d) <= u32::MAX {
        Some(digits_val(d) as u32)
    } else {
        None
    }
}

proof fn lemma_digits_val_nonneg(s: Seq<char>)
    requires
        forall|i: int| 0 <= i < s.len() ==> is_digit_char(s[i]),
    ensures
        digits_val(s) >= 0,
    decreases s.len(),
{
    if s.len() > 0 {
        lemma_digits_val_nonneg(s.drop_last());
    }
}

/// Extending a digit string on the right cannot decrease its value.
proof fn lemma_digits_val_mono(s: Seq<char>, k: int)
    requires
        0 <= k <= s.len(),
        forall|i: int| 0 <= i < s.len() ==> is_digit_char(s[i]),
    ensures
        digits_val(s) >= digits_val(s.take(k)),
    decreases s.len() - k,
{
    lemma_digits_val_nonneg(s.take(k));
    if k < s.len() {
        lemma_digits_val_mono(s, k + 1);
        assert(s.take(k + 1).drop_last() =~= s.take(k));
        lemma_digits_val_nonneg(s.take(k + 1));
    } else {
        assert(s.take(k) =~= s);
    }
}

/// Parses the digits of `d` (no sign) into a value capped at `cap`.
/// Returns `None` when a non-digit occurs, `d` is empty, or the value
/// exceeds `cap`.
fn parse_digits_capped(d: &Vec<char>, cap: u64) -> (r: Option<u64>)
    requires
        cap < 0x8000_0000_0000_0000,
    ensures
        match r {
            Some(v) => all_digits(d@) && digits_val(d@) == v && v <= cap,
            None => !(all_digits(d@) && digits_val(d@) <= cap),
        },
{
    let n = d.len();
    if n == 0 {
        return None;
    }
    let q = cap / 10;
    let rm = cap % 10;
    proof {
        vstd::arithmetic::div_mod::lemma_fundamental_div_mod(cap as int, 10);
    }
    let mut acc: u64 = 0;
    let mut i: usize = 0;
    while i < n
        invariant
            n == d@.len(),
            i <= n,
            cap < 0x8000_0000_0000_0000,
            q == cap as int / 10,
            rm == cap as int % 10,
            cap == 10 * (q as int) + rm,
            rm <= 9,
            forall|m: int| 0 <= m < i ==> is_digit_char(d@[m]),
            acc == digits_val(d@.take(i as int)),
            acc <= cap,
        decreases n - i,
    {
        let u = d[i] as u32;
        if !(48 <= u && u <= 57) {
            return None;
        }
        let dig = (u - 48) as u64;
        proof {
            assert(d@.take(i + 1 as int).drop_last() =~= d@.take(i as int));
        }
        if acc > q || (acc == q && dig > rm) {
            proof {
                assert(digits_val(d@.take(i + 1 as int)) > cap);
                if all_digits(d@) {
                    lemma_digits_val_mono(d@, i + 1 as int);
                }
            }
            return None;
        }
        acc = acc * 10 + dig;
        i = i + 1;
    }
    proof {
        assert(d@.take(n as int) =~= d@);
    }
    Some(acc)
}

pub fn parse_u32_chars(s: &Vec<char>) -> (r: Option<u32>)
    ensures
        r == parse_u32_spec(s@),
{
    let body = if s.len() > 0 && s[0] == '+' {
        skip_chars(s, 1)
    } else {
        subrange_vec(s, 0, s.len())
    };
    proof {
        assert(body@ =~= unsigned_body(s@));
    }
    match parse_digits_capped(&body, 0xffff_ffff) {
        Some(v) => Some(v as u32),
        None => None,
    }
}

/// Digits value bounded to 255, as `parse` of an unsigned byte accepts.
pub open spec fn parse_u8_spec(s: Seq<char>) -> Option<u8> {
    let d = unsigned_body(s);
    if all_digits(d) && digits_val(d) <= 255 {
        Some(digits_val(d) as u8)
    } else {
        None
    }
}

pub fn parse_u8_chars(s: &Vec<char>) -> (r: Option<u8>)
    ensures
        r == parse_u8_spec(s@),
{
    let body = if s.len() > 0 && s[0] == '+' {
        skip_chars(s, 1)
    } else {
        subrange_vec(s, 0, s.len())
    };
    proof {
        assert(body@ =~= unsigned_body(s@));
    }
    match parse_digits_capped(&body, 255) {
        Some(v) => Some(v as u8),
        None => None,
    }
}

/// What this library accepts as a signed 64-bit numeric literal: an optional
/// sign, then only digits, with a magnitude of at most `i64::MAX`.
pub open spec fn parse_i64_spec(s: Seq<char>) -> Option<i64> {
    let neg = s.len() > 0 && s[0] == '-';
    let d = if s.len() > 0 && (s[0] == '-' || s[0] == '+') {
        s.drop_first()
    } else {
        s
    };
    if all_digits(d) && digits_val(d) <= i64::MAX {
        Some(
            if neg {
                (-digits_val(d)) as i64
            } else {
                digits_val(d) as i64
            },
        )
    } else {
        None
    }
}

pub fn parse_i64_chars(s: &Vec<char>) -> (r: Option<i64>)
    ensures
        r == parse_i64_spec(s@),
{
    let neg = s.len() > 0 && s[0] == '-';
    let body = if s.len() > 0 && (s[0] == '-' || s[0] == '+') {
        skip_chars(s, 1)
    } else {
        subrange_vec(s, 0, s.len())
    };
    proof {
        if s@.len() > 0 && (s@[0] == '-' || s@[0] == '+') {
            assert(body@ =~= s@.drop_first());
        } else {
            assert(body@ =~= s@);
        }
    }
    match parse_digits_capped(&body, 0x7fff_ffff_ffff_ffff) {
        Some(v) => {
            if neg {
                proof {
                    lemma_digits_val_nonneg(body@);
                }
                Some(-(v as i64))
            } else {
                Some(v as i64)
            }
        },
        None => None,
    }
}

// --- decimal formatting ----------------------------------------------------

pub open spec fn dec_digit_char(d: int) -> char {
    if d == 0 {
        '0'
    } else if d == 1 {
        '1'
    } else if d == 2 {
        '2'
    } else if d == 3 {
        '3'
    } else if d == 4 {
        '4'
    } else if d == 5 {
        '5'
    } else if d == 6 {
        '6'
    } else if d == 7 {
        '7'
    } else if d == 8 {
        '8'
    } else {
        '9'
    }
}

/// Decimal rendering of a non-negative integer.
pub open spec fn dec_nat(n: int) -> Seq<char>
    decreases n,
{
    if n < 10 {
        seq![dec_digit_char(n)]
    } else {
        dec_nat(n / 10).push(dec_digit_char(n % 10))
    }
}

/// Decimal rendering of an integer, with a leading minus sign when negative.
pub open spec fn dec_int(n: int) -> Seq<char> {
    if n < 0 {
        seq!['-'] + dec_nat(-n)
    } else {
        dec_nat(n)
    }
}

fn dec_digit_exec(d: u64) -> (r: char)
    requires
        d <= 9,
    ensures
        r == dec_digit_char(d as int),
{
    if d == 0 {
        '0'
    } else if d == 1 {
        '1'
    } else if d == 2 {
        '2'
    } else if d == 3 {
        '3'
    } else if d == 4 {
        '4'
    } else if d == 5 {
        '5'
    } else if d == 6 {
        '6'
    } else if d == 7 {
        '7'
    } else if d == 8 {
        '8'
    } else {
        '9'
    }
}

fn push_dec_u64(n: u64, out: &mut Vec<char>)
    ensures
        final(out)@ == old(out)@ + dec_nat(n as int),
    decreases n,
{
    if n < 10 {
        out.push(dec_digit_exec(n));
        proof {
            assert(old(out)@ + dec_nat(n as int) =~= old(out)@.push(dec_digit_char(n as int)));
        }
    } else {
        push_dec_u64(n / 10, out);
        out.push(dec_digit_exec(n % 10));
        proof {
            assert(old(out)@ + dec_nat(n as int) =~= (old(out)@ + dec_nat(n as int / 10)).push(
                dec_digit_char(n as int % 10),
            ));
        }
    }
}

pub fn u64_to_chars(n: u64) -> (r: Vec<char>)
    ensures
        r@ == dec_nat(n as int),
{
    let mut out: Vec<char> = Vec::new();
    push_dec_u64(n, &mut out);
    proof {
        assert(Seq::<char>::empty() + dec_nat(n as int) =~= dec_nat(n as int));
    }
    out
}

pub fn i64_to_chars(n: i64) -> (r: Vec<char>)
    ensures
        r@ == dec_int(n as int),
{
    if n >= 0 {
        u64_to_chars(n as u64)
    } else {
        let m: u64 = ((-(n as i128)) as u64);
        let mut out: Vec<char> = Vec::new();
        out.push('-');
        push_dec_u64(m, &mut out);
        proof {
            assert(Seq::<char>::empty().push('-') =~= seq!['-']);
        }
        out
    }
}

} // verus!
