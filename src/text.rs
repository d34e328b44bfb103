//! Character-sequence helpers shared by the tokenizer and the parser.
use vstd::prelude::*;

verus! {

/// Unicode `White_Space` code points.
pub open spec fn is_ws(c: char) -> bool {
    ('\u{9}' <= c && c <= '\u{d}') || c == ' ' || c == '\u{85}' || c == '\u{a0}' || c
        == '\u{1680}' || ('\u{2000}' <= c && c <= '\u{200a}') || c == '\u{2028}' || c
        == '\u{2029}' || c == '\u{202f}' || c == '\u{205f}' || c == '\u{3000}'
}

pub fn is_ws_char(c: char) -> (r: bool)
    ensures
        r == is_ws(c),
{
    ('\u{9}' <= c && c <= '\u{d}') || c == ' ' || c == '\u{85}' || c == '\u{a0}' || c
        == '\u{1680}' || ('\u{2000}' <= c && c <= '\u{200a}') || c == '\u{2028}' || c
        == '\u{2029}' || c == '\u{202f}' || c == '\u{205f}' || c == '\u{3000}'
}

/// First position at or after `i` that holds no whitespace (or the end).
pub open spec fn lead_from(s: Seq<char>, i: int) -> int
    decreases s.len() - i,
{
    if 0 <= i < s.len() && is_ws(s[i]) {
        lead_from(s, i + 1)
    } else {
        i
    }
}

/// End of `s[lo..j]` once trailing whitespace is removed.
pub open spec fn trail_from(s: Seq<char>, lo: int, j: int) -> int
    decreases j - lo,
{
    if lo < j && j <= s.len() && is_ws(s[j - 1]) {
        trail_from(s, lo, j - 1)
    } else {
        j
    }
}

/// `s` without leading and trailing whitespace.
pub open spec fn trim(s: Seq<char>) -> Seq<char> {
    let lo = lead_from(s, 0);
    s.subrange(lo, trail_from(s, lo, s.len() as int))
}

/// `s` without trailing whitespace.
pub open spec fn trim_end(s: Seq<char>) -> Seq<char> {
    s.subrange(0, trail_from(s, 0, s.len() as int))
}

/// Bounds of `s[lo..]` once leading and trailing whitespace are removed.
fn trim_bounds(s: &Vec<char>, lo: usize) -> (r: (usize, usize))
    requires
        lo <= s@.len(),
    ensures
        r.0 == lead_from(s@, lo as int),
        r.1 == trail_from(s@, r.0 as int, s@.len() as int),
        lo <= r.0 <= r.1 <= s@.len(),
{
    let mut i: usize = lo;
    while i < s.len() && is_ws_char(s[i])
        invariant
            lo <= i <= s@.len(),
            lead_from(s@, i as int) == lead_from(s@, lo as int),
        decreases s@.len() - i,
    {
        i = i + 1;
    }
    let mut j: usize = s.len();
    while j > i && is_ws_char(s[j - 1])
        invariant
            i <= j <= s@.len(),
            trail_from(s@, i as int, j as int) == trail_from(s@, i as int, s@.len() as int),
        decreases j,
    {
        j = j - 1;
    }
    (i, j)
}

/// A copy of `s[from..to]`.
pub fn slice_chars(s: &Vec<char>, from: usize, to: usize) -> (r: Vec<char>)
    requires
        from <= to <= s@.len(),
    ensures
        r@ == s@.subrange(from as int, to as int),
{
    let mut r: Vec<char> = Vec::new();
    let mut i: usize = from;
    while i < to
        invariant
            from <= i <= to <= s@.len(),
            r@ == s@.subrange(from as int, i as int),
        decreases to - i,
    {
        r.push(s[i]);
        i = i + 1;
        assert(r@ =~= s@.subrange(from as int, i as int));
    }
    r
}

pub fn trim_chars(s: &Vec<char>) -> (r: Vec<char>)
    ensures
        r@ == trim(s@),
{
    let (a, b) = trim_bounds(s, 0);
    slice_chars(s, a, b)
}

pub fn trim_end_chars(s: &Vec<char>) -> (r: Vec<char>)
    ensures
        r@ == trim_end(s@),
{
    let mut j: usize = s.len();
    while j > 0 && is_ws_char(s[j - 1])
        invariant
            j <= s@.len(),
            trail_from(s@, 0, j as int) == trail_from(s@, 0, s@.len() as int),
        decreases j,
    {
        j = j - 1;
    }
    slice_chars(s, 0, j)
}

/// Equality of two character sequences.
pub fn chars_eq(a: &Vec<char>, b: &Vec<char>) -> (r: bool)
    ensures
        r == (a@ == b@),
{
    if a.len() != b.len() {
        return false;
    }
    let mut i: usize = 0;
    while i < a.len()
        invariant
            a@.len() == b@.len(),
            i <= a@.len(),
            a@.subrange(0, i as int) == b@.subrange(0, i as int),
        decreases a@.len() - i,
    {
        if a[i] != b[i] {
            assert(a@[i as int] != b@[i as int]);
            return false;
        }
        i = i + 1;
        assert(a@.subrange(0, i as int) =~= b@.subrange(0, i as int)) by {
            assert forall|k: int| 0 <= k < i implies a@[k] == b@[k] by {
                if k < i - 1 {
                    assert(a@.subrange(0, i - 1)[k] == b@.subrange(0, i - 1)[k]);
                }
            }
        }
    }
    assert(a@ =~= a@.subrange(0, i as int));
    assert(b@ =~= b@.subrange(0, i as int));
    true
}

/// First index at or after `i` that holds `c`, or -1.
pub open spec fn find_char_from(s: Seq<char>, c: char, i: int) -> int
    decreases s.len() - i,
{
    if i < 0 || i >= s.len() {
        -1
    } else if s[i] == c {
        i
    } else {
        find_char_from(s, c, i + 1)
    }
}

pub proof fn lemma_find_char_bounds(s: Seq<char>, c: char, i: int)
    requires
        0 <= i,
    ensures
        find_char_from(s, c, i) == -1 || (i <= find_char_from(s, c, i) < s.len()
            && s[find_char_from(s, c, i)] == c),
    decreases s.len() - i,
{
    if i < s.len() && s[i] != c {
        lemma_find_char_bounds(s, c, i + 1);
    }
}

pub fn find_char(s: &Vec<char>, c: char, from: usize) -> (r: Option<usize>)
    requires
        from <= s@.len(),
    ensures
        match r {
            Some(k) => k as int == find_char_from(s@, c, from as int),
            None => find_char_from(s@, c, from as int) == -1,
        },
        r matches Some(k) ==> from <= k < s@.len() && s@[k as int] == c,
{
    let mut i: usize = from;
    while i < s.len()
        invariant
            from <= i <= s@.len(),
            find_char_from(s@, c, i as int) == find_char_from(s@, c, from as int),
        decreases s@.len() - i,
    {
        if s[i] == c {
            return Some(i);
        }
        i = i + 1;
    }
    None
}

/// Whether `s` holds `c` anywhere.
pub fn contains_char(s: &Vec<char>, c: char) -> (r: bool)
    ensures
        r == (find_char_from(s@, c, 0) != -1),
        r == s@.contains(c),
{
    proof {
        lemma_find_char_bounds(s@, c, 0);
    }
    let r = find_char(s, c, 0);
    proof {
        if r is None {
            lemma_find_char_none(s@, c, 0);
        }
    }
    r.is_some()
}

pub proof fn lemma_find_char_none(s: Seq<char>, c: char, i: int)
    requires
        0 <= i,
        find_char_from(s, c, i) == -1,
    ensures
        forall|k: int| i <= k < s.len() ==> s[k] != c,
    decreases s.len() - i,
{
    if i < s.len() {
        lemma_find_char_none(s, c, i + 1);
    }
}

/// The pieces of `s[i..]` between occurrences of `sep`.
pub open spec fn split_from(s: Seq<char>, sep: char, i: int) -> Seq<Seq<char>>
    decreases s.len() + 1 - i,
{
    let j = find_char_from(s, sep, i);
    if i < 0 || i > s.len() {
        Seq::empty()
    } else if j < i || j >= s.len() {
        seq![s.subrange(i, s.len() as int)]
    } else {
        seq![s.subrange(i, j)] + split_from(s, sep, j + 1)
    }
}

/// What `str::split(sep)` yields on `s`.
pub open spec fn split(s: Seq<char>, sep: char) -> Seq<Seq<char>> {
    split_from(s, sep, 0)
}

pub open spec fn views(v: Seq<Vec<char>>) -> Seq<Seq<char>> {
    v.map_values(|t: Vec<char>| t@)
}

pub fn split_chars(s: &Vec<char>, sep: char) -> (r: Vec<Vec<char>>)
    ensures
        views(r@) == split(s@, sep),
{
    let mut r: Vec<Vec<char>> = Vec::new();
    let mut i: usize = 0;
    let n: usize = s.len();
    loop
        invariant
            n == s@.len(),
            i <= s@.len(),
            views(r@) + split_from(s@, sep, i as int) == split(s@, sep),
        decreases s@.len() - i,
    {
        proof {
            lemma_find_char_bounds(s@, sep, i as int);
        }
        match find_char(s, sep, i) {
            None => {
                let piece = slice_chars(s, i, s.len());
                let ghost old_r = r@;
                r.push(piece);
                assert(views(r@) =~= views(old_r) + split_from(s@, sep, i as int));
                return r;
            },
            Some(j) => {
                let piece = slice_chars(s, i, j);
                let ghost old_r = r@;
                r.push(piece);
                assert(views(r@) =~= views(old_r) + seq![s@.subrange(i as int, j as int)]);
                assert(views(old_r) + split_from(s@, sep, i as int) =~= views(r@)
                    + split_from(s@, sep, j + 1));
                i = j + 1;
            },
        }
    }
}

/// The pieces of `p` separated by `sep`.
pub open spec fn join(p: Seq<Seq<char>>, sep: Seq<char>) -> Seq<char>
    decreases p.len(),
{
    if p.len() == 0 {
        Seq::empty()
    } else if p.len() == 1 {
        p[0]
    } else {
        join(p.drop_last(), sep) + sep + p.last()
    }
}

pub fn append_chars(out: &mut Vec<char>, s: &Vec<char>)
    ensures
        final(out)@ == old(out)@ + s@,
{
    let mut i: usize = 0;
    while i < s.len()
        invariant
            i <= s@.len(),
            out@ == old(out)@ + s@.subrange(0, i as int),
        decreases s@.len() - i,
    {
        out.push(s[i]);
        i = i + 1;
        assert(out@ =~= old(out)@ + s@.subrange(0, i as int));
    }
    assert(s@.subrange(0, i as int) =~= s@);
}

pub fn join_chars(p: &Vec<Vec<char>>, sep: &Vec<char>) -> (r: Vec<char>)
    ensures
        r@ == join(views(p@), sep@),
{
    let mut r: Vec<char> = Vec::new();
    let mut i: usize = 0;
    while i < p.len()
        invariant
            i <= p@.len(),
            r@ == join(views(p@).subrange(0, i as int), sep@),
        decreases p@.len() - i,
    {
        let ghost pre = views(p@).subrange(0, i as int);
        if i > 0 {
            append_chars(&mut r, sep);
        }
        append_chars(&mut r, &p[i]);
        i = i + 1;
        let ghost now = views(p@).subrange(0, i as int);
        assert(now.drop_last() =~= pre);
        if i == 1 {
            assert(r@ =~= join(now, sep@));
        }
    }
    assert(views(p@).subrange(0, i as int) =~= views(p@));
    r
}


/// Whether `pat` occurs in `s` starting at `i`.
pub open spec fn matches_at(s: Seq<char>, i: int, pat: Seq<char>) -> bool {
    0 <= i && i + pat.len() <= s.len() && s.subrange(i, i + pat.len()) == pat
}

/// First index at or after `i` where `pat` occurs, or -1.
pub open spec fn find_from(s: Seq<char>, pat: Seq<char>, i: int) -> int
    decreases s.len() + 1 - i,
{
    if i < 0 || i + pat.len() > s.len() {
        -1
    } else if matches_at(s, i, pat) {
        i
    } else {
        find_from(s, pat, i + 1)
    }
}

/// `s[i..]` with every occurrence of `pat`, taken left to right, removed.
pub open spec fn remove_from(s: Seq<char>, pat: Seq<char>, i: int) -> Seq<char>
    decreases s.len() - i,
{
    if i < 0 || i >= s.len() {
        Seq::empty()
    } else if pat.len() > 0 && matches_at(s, i, pat) {
        remove_from(s, pat, i + pat.len())
    } else {
        seq![s[i]] + remove_from(s, pat, i + 1)
    }
}

/// What `str::replace(pat, "")` gives on `s`.
pub open spec fn remove_all(s: Seq<char>, pat: Seq<char>) -> Seq<char> {
    remove_from(s, pat, 0)
}

pub fn matches_at_exec(s: &Vec<char>, i: usize, pat: &Vec<char>) -> (r: bool)
    ensures
        r == matches_at(s@, i as int, pat@),
{
    if i > s.len() || pat.len() > s.len() - i {
        return false;
    }
    let mut k: usize = 0;
    let n: usize = s.len();
    while k < pat.len()
        invariant
            n == s@.len(),
            i + pat@.len() <= s@.len(),
            k <= pat@.len(),
            forall|j: int| 0 <= j < k ==> s@[i + j] == pat@[j],
        decreases pat@.len() - k,
    {
        if s[i + k] != pat[k] {
            assert(s@.subrange(i as int, i + pat@.len())[k as int] != pat@[k as int]);
            return false;
        }
        k = k + 1;
    }
    assert(s@.subrange(i as int, i + pat@.len()) =~= pat@);
    true
}

pub fn find_exec(s: &Vec<char>, pat: &Vec<char>) -> (r: Option<usize>)
    ensures
        match r {
            Some(k) => k as int == find_from(s@, pat@, 0) && matches_at(s@, k as int, pat@),
            None => find_from(s@, pat@, 0) == -1,
        },
{
    let mut i: usize = 0;
    let n: usize = s.len();
    while pat.len() <= n - i
        invariant
            n == s@.len(),
            i <= n,
            find_from(s@, pat@, i as int) == find_from(s@, pat@, 0),
        decreases s@.len() + 1 - i,
    {
        if matches_at_exec(s, i, pat) {
            return Some(i);
        }
        if i == n {
            assert(find_from(s@, pat@, i + 1) == -1);
            return None;
        }
        i = i + 1;
    }
    None
}

pub fn remove_all_exec(s: &Vec<char>, pat: &Vec<char>) -> (r: Vec<char>)
    ensures
        r@ == remove_all(s@, pat@),
{
    let mut r: Vec<char> = Vec::new();
    let mut i: usize = 0;
    while i < s.len()
        invariant
            r@ + remove_from(s@, pat@, i as int) == remove_all(s@, pat@),
        decreases s@.len() - i,
    {
        if pat.len() > 0 && matches_at_exec(s, i, pat) {
            i = i + pat.len();
        } else {
            let ghost old_r = r@;
            r.push(s[i]);
            assert(old_r + remove_from(s@, pat@, i as int) =~= r@ + remove_from(
                s@,
                pat@,
                i + 1,
            ));
            i = i + 1;
        }
    }
    assert(r@ + remove_from(s@, pat@, i as int) =~= r@);
    r
}

/// Last index before `j` that holds `c`, or -1.
pub open spec fn rfind_char_before(s: Seq<char>, c: char, j: int) -> int
    decreases j,
{
    if j <= 0 || j > s.len() {
        -1
    } else if s[j - 1] == c {
        j - 1
    } else {
        rfind_char_before(s, c, j - 1)
    }
}

pub fn rfind_char(s: &Vec<char>, c: char) -> (r: Option<usize>)
    ensures
        match r {
            Some(k) => k as int == rfind_char_before(s@, c, s@.len() as int) && k < s@.len(),
            None => rfind_char_before(s@, c, s@.len() as int) == -1,
        },
{
    let mut j: usize = s.len();
    while j > 0
        invariant
            j <= s@.len(),
            rfind_char_before(s@, c, j as int) == rfind_char_before(s@, c, s@.len() as int),
        decreases j,
    {
        if s[j - 1] == c {
            return Some(j - 1);
        }
        j = j - 1;
    }
    None
}

/// First position at or after `i` that does not hold `c` (or the end).
pub open spec fn lead_char_from(s: Seq<char>, c: char, i: int) -> int
    decreases s.len() - i,
{
    if 0 <= i < s.len() && s[i] == c {
        lead_char_from(s, c, i + 1)
    } else {
        i
    }
}

/// End of `s[lo..j]` once trailing copies of `c` are removed.
pub open spec fn trail_char_from(s: Seq<char>, c: char, lo: int, j: int) -> int
    decreases j - lo,
{
    if lo < j && j <= s.len() && s[j - 1] == c {
        trail_char_from(s, c, lo, j - 1)
    } else {
        j
    }
}

/// `s` without leading and trailing copies of `c`.
pub open spec fn trim_char(s: Seq<char>, c: char) -> Seq<char> {
    let lo = lead_char_from(s, c, 0);
    s.subrange(lo, trail_char_from(s, c, lo, s.len() as int))
}

pub fn trim_char_exec(s: &Vec<char>, c: char) -> (r: Vec<char>)
    ensures
        r@ == trim_char(s@, c),
{
    let mut i: usize = 0;
    while i < s.len() && s[i] == c
        invariant
            i <= s@.len(),
            lead_char_from(s@, c, i as int) == lead_char_from(s@, c, 0),
        decreases s@.len() - i,
    {
        i = i + 1;
    }
    let mut j: usize = s.len();
    while j > i && s[j - 1] == c
        invariant
            i <= j <= s@.len(),
            trail_char_from(s@, c, i as int, j as int) == trail_char_from(
                s@,
                c,
                i as int,
                s@.len() as int,
            ),
        decreases j,
    {
        j = j - 1;
    }
    slice_chars(s, i, j)
}

} // verus!
