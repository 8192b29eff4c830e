//! Character-level text handling: whitespace, trimming, searching and
//! splitting, over sequences of `char`.
use vstd::prelude::*;

verus! {

/// Unicode `White_Space`, the set that `char::is_whitespace` accepts.
pub open spec fn is_ws(c: char) -> bool {
    let n = c as u32;
    ||| n == 0x20
    ||| (0x09 <= n && n <= 0x0d)
    ||| n == 0x85
    ||| n == 0xa0
    ||| n == 0x1680
    ||| (0x2000 <= n && n <= 0x200a)
    ||| n == 0x2028
    ||| n == 0x2029
    ||| n == 0x202f
    ||| n == 0x205f
    ||| n == 0x3000
}

/// Whether `c` is white space.
pub fn is_whitespace(c: char) -> (r: bool)
    ensures
        r == is_ws(c),
{
    let n = c as u32;
    n == 0x20 || (0x09 <= n && n <= 0x0d) || n == 0x85 || n == 0xa0 || n == 0x1680 || (0x2000
        <= n && n <= 0x200a) || n == 0x2028 || n == 0x2029 || n == 0x202f || n == 0x205f || n
        == 0x3000
}

/// `s` without its leading white space.
pub open spec fn trim_start(s: Seq<char>) -> Seq<char>
    decreases s.len(),
{
    if s.len() > 0 && is_ws(s[0]) {
        trim_start(s.drop_first())
    } else {
        s
    }
}

/// `s` without its trailing white space.
pub open spec fn trim_end(s: Seq<char>) -> Seq<char>
    decreases s.len(),
{
    if s.len() > 0 && is_ws(s.last()) {
        trim_end(s.drop_last())
    } else {
        s
    }
}

/// `s` without leading and trailing white space (`str::trim`).
pub open spec fn trim(s: Seq<char>) -> Seq<char> {
    trim_end(trim_start(s))
}

/// `s` without any leading `c` (`str::trim_start_matches` with a `char`).
pub open spec fn trim_start_matches(s: Seq<char>, c: char) -> Seq<char>
    decreases s.len(),
{
    if s.len() > 0 && s[0] == c {
        trim_start_matches(s.drop_first(), c)
    } else {
        s
    }
}

/// `s` without any trailing `c` (`str::trim_end_matches` with a `char`).
pub open spec fn trim_end_matches(s: Seq<char>, c: char) -> Seq<char>
    decreases s.len(),
{
    if s.len() > 0 && s.last() == c {
        trim_end_matches(s.drop_last(), c)
    } else {
        s
    }
}

/// Index of the first `c` in `s`, or -1 when there is none.
pub open spec fn idx_of(s: Seq<char>, c: char) -> int
    decreases s.len(),
{
    if s.len() == 0 {
        -1
    } else if s[0] == c {
        0
    } else {
        let r = idx_of(s.drop_first(), c);
        if r < 0 {
            -1
        } else {
            r + 1
        }
    }
}

/// Whether `p` occurs in `s` at index `i`.
pub open spec fn occurs_at(s: Seq<char>, p: Seq<char>, i: int) -> bool {
    0 <= i && i + p.len() <= s.len() && s.subrange(i, i + p.len()) == p
}

/// Index of the first occurrence of `p` in `s`, or -1 when there is none.
pub open spec fn find_pat(s: Seq<char>, p: Seq<char>) -> int
    decreases s.len(),
{
    if s.len() < p.len() {
        -1
    } else if s.take(p.len() as int) == p {
        0
    } else if s.len() == 0 {
        -1
    } else {
        let r = find_pat(s.drop_first(), p);
        if r < 0 {
            -1
        } else {
            r + 1
        }
    }
}

/// `str::split_once` with a `char` delimiter.
pub open spec fn split_once(s: Seq<char>, c: char) -> Option<(Seq<char>, Seq<char>)> {
    let i = idx_of(s, c);
    if i < 0 {
        None
    } else {
        Some((s.take(i), s.skip(i + 1)))
    }
}

/// `str::split` with a `char` delimiter: the pieces between the delimiters.
pub open spec fn split_char(s: Seq<char>, c: char) -> Seq<Seq<char>>
    decreases s.len(),
{
    let i = idx_of(s, c);
    if i < 0 {
        seq![s]
    } else {
        proof {
            lemma_idx_of(s, c);
        }
        seq![s.take(i)] + split_char(s.skip(i + 1), c)
    }
}

/// `str::split` with a non-empty string delimiter.
pub open spec fn split_pat(s: Seq<char>, p: Seq<char>) -> Seq<Seq<char>>
    decreases s.len(),
{
    let i = find_pat(s, p);
    if i < 0 || p.len() == 0 {
        seq![s]
    } else {
        proof {
            lemma_find_pat(s, p);
        }
        seq![s.take(i)] + split_pat(s.skip(i + p.len()), p)
    }
}

pub proof fn lemma_idx_of(s: Seq<char>, c: char)
    ensures
        -1 <= idx_of(s, c) < s.len(),
        idx_of(s, c) >= 0 ==> s[idx_of(s, c)] == c,
        forall|j: int| 0 <= j < s.len() && (idx_of(s, c) < 0 || j < idx_of(s, c)) ==> s[j] != c,
    decreases s.len(),
{
    if s.len() > 0 && s[0] != c {
        lemma_idx_of(s.drop_first(), c);
        assert forall|j: int|
            0 <= j < s.len() && (idx_of(s, c) < 0 || j < idx_of(s, c)) implies s[j] != c by {
            if j > 0 {
                assert(s[j] == s.drop_first()[j - 1]);
            }
        }
    }
}

/// The first occurrence found by a scan is the one `idx_of` names.
pub proof fn lemma_idx_of_at(s: Seq<char>, c: char, k: int)
    requires
        -1 <= k <= s.len(),
        forall|j: int| 0 <= j < k ==> s[j] != c,
        0 <= k < s.len() ==> s[k] == c,
        k == s.len() ==> forall|j: int| 0 <= j < s.len() ==> s[j] != c,
        k == -1 ==> false,
    ensures
        idx_of(s, c) == if k < s.len() {
            k
        } else {
            -1
        },
{
    lemma_idx_of(s, c);
    let r = idx_of(s, c);
    if r >= 0 && k < s.len() {
        if r < k {
            assert(s[r] != c);
        }
    }
}

pub proof fn lemma_find_pat(s: Seq<char>, p: Seq<char>)
    ensures
        -1 <= find_pat(s, p),
        find_pat(s, p) >= 0 ==> occurs_at(s, p, find_pat(s, p)),
        forall|j: int|
            0 <= j && (find_pat(s, p) < 0 || j < find_pat(s, p)) ==> !occurs_at(s, p, j),
    decreases s.len(),
{
    if s.len() < p.len() {
    } else if s.take(p.len() as int) == p {
        assert(s.subrange(0, p.len() as int) == s.take(p.len() as int));
    } else if s.len() == 0 {
    } else {
        lemma_find_pat(s.drop_first(), p);
        let r = find_pat(s, p);
        if r >= 0 {
            assert(s.drop_first().subrange(r - 1, r - 1 + p.len()) == s.subrange(r, r + p.len()));
        }
        assert forall|j: int| 0 <= j && (r < 0 || j < r) implies !occurs_at(s, p, j) by {
            if j == 0 {
                assert(s.subrange(0, p.len() as int) == s.take(p.len() as int));
            } else if occurs_at(s, p, j) {
                assert(s.drop_first().subrange(j - 1, j - 1 + p.len()) == s.subrange(
                    j,
                    j + p.len(),
                ));
                assert(occurs_at(s.drop_first(), p, j - 1));
            }
        }
    }
}

/// The first occurrence found by a scan is the one `find_pat` names.
pub proof fn lemma_find_pat_at(s: Seq<char>, p: Seq<char>, k: int)
    requires
        0 <= k,
        forall|j: int| 0 <= j < k ==> !occurs_at(s, p, j),
        occurs_at(s, p, k) || k + p.len() > s.len(),
    ensures
        find_pat(s, p) == if occurs_at(s, p, k) {
            k
        } else {
            -1
        },
{
    lemma_find_pat(s, p);
    let r = find_pat(s, p);
    if r >= 0 {
        if !occurs_at(s, p, k) {
            assert(r < k);
        } else if r < k {
        } else if r > k {
        }
    }
}

/// `s` as a vector of its characters.
pub fn chars_of(s: &str) -> (res: Vec<char>)
    ensures
        res@ == s@,
{
    let mut res: Vec<char> = Vec::new();
    for c in it: s.chars()
        invariant
            it.seq() == s@,
            res@ == it.seq().take(it.index() as int),
    {
        res.push(c);
    }
    res
}

/// `String::push`: appends one character.
#[verifier::external_body]
fn push_char(s: &mut String, c: char)
    ensures
        final(s)@ == old(s)@.push(c),
{
    s.push(c);
}

/// The string made of the characters `cs`.
pub fn string_of(cs: &[char]) -> (res: String)
    ensures
        res@ == cs@,
{
    let mut res = String::new();
    let mut i: usize = 0;
    while i < cs.len()
        invariant
            i <= cs.len(),
            res@ == cs@.take(i as int),
        decreases cs.len() - i,
    {
        push_char(&mut res, cs[i]);
        i = i + 1;
        assert(cs@.take(i as int) == cs@.take(i - 1).push(cs@[i - 1]));
    }
    assert(cs@.take(cs.len() as int) == cs@);
    res
}

/// A fresh vector with the characters `cs[lo..hi]`.
pub fn copy_range(cs: &[char], lo: usize, hi: usize) -> (res: Vec<char>)
    requires
        lo <= hi <= cs.len(),
    ensures
        res@ == cs@.subrange(lo as int, hi as int),
{
    let mut res: Vec<char> = Vec::new();
    let mut i: usize = lo;
    while i < hi
        invariant
            lo <= i <= hi <= cs.len(),
            res@ == cs@.subrange(lo as int, i as int),
        decreases hi - i,
    {
        res.push(cs[i]);
        i = i + 1;
        assert(cs@.subrange(lo as int, i as int) == cs@.subrange(lo as int, i - 1).push(
            cs@[i - 1],
        ));
    }
    res
}

proof fn lemma_trim_start_skip(s: Seq<char>, i: int)
    requires
        0 <= i <= s.len(),
        forall|j: int| 0 <= j < i ==> is_ws(s[j]),
    ensures
        trim_start(s) == trim_start(s.skip(i)),
    decreases i,
{
    if i > 0 {
        assert(s.skip(1) == s.drop_first());
        lemma_trim_start_skip(s.drop_first(), i - 1);
        assert(s.drop_first().skip(i - 1) == s.skip(i));
    } else {
        assert(s.skip(0) == s);
    }
}

proof fn lemma_trim_end_take(s: Seq<char>, i: int)
    requires
        0 <= i <= s.len(),
        forall|j: int| i <= j < s.len() ==> is_ws(s[j]),
    ensures
        trim_end(s) == trim_end(s.take(i)),
    decreases s.len() - i,
{
    if i < s.len() {
        assert(s.take(s.len() - 1) == s.drop_last());
        lemma_trim_end_take(s.drop_last(), i);
        assert(s.drop_last().take(i) == s.take(i));
    } else {
        assert(s.take(i) == s);
    }
}

/// `str::trim`.
pub fn trim_chars(cs: &[char]) -> (res: Vec<char>)
    ensures
        res@ == trim(cs@),
{
    let mut lo: usize = 0;
    while lo < cs.len() && is_whitespace(cs[lo])
        invariant
            lo <= cs.len(),
            forall|j: int| 0 <= j < lo ==> is_ws(cs@[j]),
        decreases cs.len() - lo,
    {
        lo = lo + 1;
    }
    proof {
        lemma_trim_start_skip(cs@, lo as int);
    }
    let ghost rest = cs@.skip(lo as int);
    assert(trim_start(rest) == rest);
    let mut hi: usize = cs.len();
    while hi > lo && is_whitespace(cs[hi - 1])
        invariant
            lo <= hi <= cs.len(),
            forall|j: int| hi <= j < cs.len() ==> is_ws(cs@[j]),
        decreases hi,
    {
        hi = hi - 1;
    }
    proof {
        lemma_trim_end_take(rest, hi - lo);
        assert(rest.take(hi - lo) == cs@.subrange(lo as int, hi as int));
        let t = cs@.subrange(lo as int, hi as int);
        assert(t.len() == 0 || !is_ws(t.last()));
    }
    copy_range(cs, lo, hi)
}

/// Position of the first `c` in `cs[from..]`, as an index into `cs`.
pub fn find_char(cs: &[char], c: char, from: usize) -> (res: Option<usize>)
    requires
        from <= cs.len(),
    ensures
        res is None <==> idx_of(cs@.skip(from as int), c) < 0,
        res matches Some(i) ==> from <= i < cs.len() && i - from == idx_of(
            cs@.skip(from as int),
            c,
        ),
{
    let ghost s = cs@.skip(from as int);
    let mut i: usize = from;
    while i < cs.len()
        invariant
            from <= i <= cs.len(),
            s == cs@.skip(from as int),
            forall|j: int| 0 <= j < i - from ==> s[j] != c,
        decreases cs.len() - i,
    {
        if cs[i] == c {
            proof {
                lemma_idx_of_at(s, c, i - from);
            }
            return Some(i);
        }
        i = i + 1;
    }
    proof {
        lemma_idx_of_at(s, c, s.len() as int);
    }
    None
}

/// `str::split_once` with a `char` delimiter.
pub fn split_once_chars(cs: &[char], c: char) -> (res: Option<(Vec<char>, Vec<char>)>)
    ensures
        split_once(cs@, c) is None <==> res is None,
        res matches Some((l, r)) ==> split_once(cs@, c) == Some((l@, r@)),
{
    assert(cs@.skip(0) == cs@);
    match find_char(cs, c, 0) {
        None => None,
        Some(i) => {
            let l = copy_range(cs, 0, i);
            let r = copy_range(cs, i + 1, cs.len());
            assert(l@ == cs@.take(i as int));
            assert(r@ == cs@.skip(i + 1));
            Some((l, r))
        },
    }
}

/// `str::split` with a `char` delimiter.
pub fn split_chars(cs: &[char], c: char) -> (res: Vec<Vec<char>>)
    ensures
        res.deep_view() == split_char(cs@, c),
{
    let mut res: Vec<Vec<char>> = Vec::new();
    let mut start: usize = 0;
    assert(cs@.skip(0) == cs@);
    loop
        invariant
            start <= cs.len(),
            split_char(cs@, c) == res.deep_view() + split_char(cs@.skip(start as int), c),
        decreases cs.len() - start,
    {
        let ghost rest = cs@.skip(start as int);
        match find_char(cs, c, start) {
            None => {
                let piece = copy_range(cs, start, cs.len());
                assert(piece@ == rest);
                assert(split_char(rest, c) == seq![rest]);
                let ghost before = res.deep_view();
                assert(piece.deep_view() =~= piece@);
                res.push(piece);
                assert(res.deep_view() =~= before.push(piece@));
                assert(res.deep_view() == before + seq![rest]);
                return res;
            },
            Some(i) => {
                let piece = copy_range(cs, start, i);
                let ghost k = (i - start) as int;
                assert(piece@ == rest.take(k));
                assert(rest.skip(k + 1) == cs@.skip(i + 1));
                assert(split_char(rest, c) == seq![rest.take(k)] + split_char(rest.skip(k + 1), c));
                let ghost before = res.deep_view();
                assert(piece.deep_view() =~= piece@);
                res.push(piece);
                assert(res.deep_view() =~= before.push(piece@));
                assert(res.deep_view() + split_char(cs@.skip(i + 1), c) == before + split_char(
                    rest,
                    c,
                ));
                start = i + 1;
            },
        }
    }
}

/// Position of the first occurrence of `p` in `cs[from..]`, as an index into `cs`.
pub fn find_pattern(cs: &[char], p: &[char], from: usize) -> (res: Option<usize>)
    requires
        from <= cs.len(),
        p.len() > 0,
    ensures
        res is None <==> find_pat(cs@.skip(from as int), p@) < 0,
        res matches Some(i) ==> from <= i && i + p.len() <= cs.len() && i - from == find_pat(
            cs@.skip(from as int),
            p@,
        ),
{
    let ghost s = cs@.skip(from as int);
    let mut i: usize = from;
    while i < cs.len() && p.len() <= cs.len() - i
        invariant
            from <= i <= cs.len(),
            s == cs@.skip(from as int),
            forall|j: int| 0 <= j < i - from ==> !occurs_at(s, p@, j),
        decreases cs.len() - i,
    {
        let mut k: usize = 0;
        while k < p.len() && cs[i + k] == p[k]
            invariant
                k <= p.len(),
                i + p.len() <= cs.len(),
                forall|m: int| 0 <= m < k ==> cs@[i + m] == p@[m],
            decreases p.len() - k,
        {
            k = k + 1;
        }
        if k == p.len() {
            proof {
                assert(s.subrange(i - from, i - from + p.len()) == p@);
                lemma_find_pat_at(s, p@, i - from);
            }
            return Some(i);
        }
        proof {
            assert(s[i - from + k] != p@[k as int]);
            assert(!occurs_at(s, p@, i - from)) by {
                if occurs_at(s, p@, i - from) {
                    assert(s.subrange(i - from, i - from + p.len())[k as int] == p@[k as int]);
                }
            }
        }
        i = i + 1;
    }
    proof {
        lemma_find_pat_at(s, p@, i - from);
    }
    None
}

/// `str::split` with a non-empty string delimiter.
pub fn split_pattern(cs: &[char], p: &[char]) -> (res: Vec<Vec<char>>)
    requires
        p.len() > 0,
    ensures
        res.deep_view() == split_pat(cs@, p@),
{
    let mut res: Vec<Vec<char>> = Vec::new();
    let mut start: usize = 0;
    assert(cs@.skip(0) == cs@);
    loop
        invariant
            start <= cs.len(),
            p.len() > 0,
            split_pat(cs@, p@) == res.deep_view() + split_pat(cs@.skip(start as int), p@),
        decreases cs.len() - start,
    {
        let ghost rest = cs@.skip(start as int);
        match find_pattern(cs, p, start) {
            None => {
                let piece = copy_range(cs, start, cs.len());
                assert(piece@ == rest);
                assert(split_pat(rest, p@) == seq![rest]);
                let ghost before = res.deep_view();
                assert(piece.deep_view() =~= piece@);
                res.push(piece);
                assert(res.deep_view() =~= before.push(piece@));
                assert(res.deep_view() == before + seq![rest]);
                return res;
            },
            Some(i) => {
                let piece = copy_range(cs, start, i);
                let ghost k = (i - start) as int;
                assert(piece@ == rest.take(k));
                assert(rest.skip(k + p.len()) == cs@.skip(i + p.len()));
                assert(split_pat(rest, p@) == seq![rest.take(k)] + split_pat(
                    rest.skip(k + p.len()),
                    p@,
                ));
                let ghost before = res.deep_view();
                assert(piece.deep_view() =~= piece@);
                res.push(piece);
                assert(res.deep_view() =~= before.push(piece@));
                assert(res.deep_view() + split_pat(cs@.skip(i + p.len()), p@) == before
                    + split_pat(rest, p@));
                start = i + p.len();
            },
        }
    }
}

/// `str::trim_start_matches` with a `char`.
pub fn trim_start_matches_chars(cs: &[char], c: char) -> (res: Vec<char>)
    ensures
        res@ == trim_start_matches(cs@, c),
{
    let mut lo: usize = 0;
    assert(cs@.skip(0) == cs@);
    while lo < cs.len() && cs[lo] == c
        invariant
            lo <= cs.len(),
            trim_start_matches(cs@, c) == trim_start_matches(cs@.skip(lo as int), c),
        decreases cs.len() - lo,
    {
        assert(cs@.skip(lo as int).drop_first() == cs@.skip(lo + 1));
        lo = lo + 1;
    }
    copy_range(cs, lo, cs.len())
}

/// `str::trim_end_matches` with a `char`.
pub fn trim_end_matches_chars(cs: &[char], c: char) -> (res: Vec<char>)
    ensures
        res@ == trim_end_matches(cs@, c),
{
    let mut hi: usize = cs.len();
    assert(cs@.take(cs.len() as int) == cs@);
    while hi > 0 && cs[hi - 1] == c
        invariant
            hi <= cs.len(),
            trim_end_matches(cs@, c) == trim_end_matches(cs@.take(hi as int), c),
        decreases hi,
    {
        assert(cs@.take(hi as int).drop_last() == cs@.take(hi - 1));
        hi = hi - 1;
    }
    copy_range(cs, 0, hi)
}

/// The string `a` followed by `b`.
pub fn concat_str(a: &str, b: &str) -> (res: String)
    ensures
        res@ == a@ + b@,
{
    let mut cs = chars_of(a);
    let bs = chars_of(b);
    let mut i: usize = 0;
    let ghost start = cs@;
    while i < bs.len()
        invariant
            i <= bs.len(),
            start == a@,
            bs@ == b@,
            cs@ == start + bs@.take(i as int),
        decreases bs.len() - i,
    {
        cs.push(bs[i]);
        i = i + 1;
        assert(bs@.take(i as int) == bs@.take(i - 1).push(bs@[i - 1]));
    }
    assert(bs@.take(bs.len() as int) == bs@);
    string_of(cs.as_slice())
}

/// The digit character for `d` (below ten).
pub open spec fn digit_char(d: int) -> char {
    (d + '0' as int) as char
}

/// The decimal digits of `n`, without leading zeros (`0` for zero).
pub open spec fn decimal(n: nat) -> Seq<char>
    decreases n,
{
    if n < 10 {
        seq![digit_char(n as int)]
    } else {
        decimal(n / 10).push(digit_char((n % 10) as int))
    }
}

/// The decimal digits of `n`.
pub fn decimal_u128(n: u128) -> (res: Vec<char>)
    ensures
        res@ == decimal(n as nat),
    decreases n,
{
    let d = (n % 10) as u8;
    let c = (d + 48u8) as char;
    if n < 10 {
        vec![c]
    } else {
        let mut v = decimal_u128(n / 10);
        v.push(c);
        v
    }
}

/// Whether `a` comes before or equals `b` in lexicographic order of code
/// points (the order of `String`s: UTF-8 bytes compare as their code points do).
pub open spec fn lex_le(a: Seq<char>, b: Seq<char>) -> bool
    decreases a.len(),
{
    if a.len() == 0 {
        true
    } else if b.len() == 0 {
        false
    } else if (a[0] as int) < (b[0] as int) {
        true
    } else if a[0] == b[0] {
        lex_le(a.drop_first(), b.drop_first())
    } else {
        false
    }
}

pub open spec fn lex_le_fn() -> spec_fn(Seq<char>, Seq<char>) -> bool {
    |a: Seq<char>, b: Seq<char>| lex_le(a, b)
}

proof fn lemma_lex_reflexive(a: Seq<char>)
    ensures
        lex_le(a, a),
    decreases a.len(),
{
    if a.len() > 0 {
        lemma_lex_reflexive(a.drop_first());
    }
}

proof fn lemma_lex_antisymmetric(a: Seq<char>, b: Seq<char>)
    requires
        lex_le(a, b),
        lex_le(b, a),
    ensures
        a == b,
    decreases a.len(),
{
    if a.len() > 0 && b.len() > 0 {
        lemma_lex_antisymmetric(a.drop_first(), b.drop_first());
        assert(a =~= seq![a[0]] + a.drop_first());
        assert(b =~= seq![b[0]] + b.drop_first());
    } else {
        assert(a =~= b);
    }
}

proof fn lemma_lex_transitive(a: Seq<char>, b: Seq<char>, c: Seq<char>)
    requires
        lex_le(a, b),
        lex_le(b, c),
    ensures
        lex_le(a, c),
    decreases a.len(),
{
    if a.len() > 0 && b.len() > 0 && c.len() > 0 {
        if a[0] == b[0] && b[0] == c[0] {
            lemma_lex_transitive(a.drop_first(), b.drop_first(), c.drop_first());
        }
    }
}

proof fn lemma_lex_total(a: Seq<char>, b: Seq<char>)
    ensures
        lex_le(a, b) || lex_le(b, a),
    decreases a.len(),
{
    if a.len() > 0 && b.len() > 0 {
        if a[0] == b[0] {
            lemma_lex_total(a.drop_first(), b.drop_first());
        } else {
            assert(a[0] as int != b[0] as int);
        }
    }
}

/// Lexicographic order of code points is a total order.
pub proof fn lemma_lex_total_ordering()
    ensures
        vstd::relations::total_ordering(lex_le_fn()),
{
    assert forall|a: Seq<char>| #[trigger] lex_le_fn()(a, a) by {
        lemma_lex_reflexive(a);
    }
    assert forall|a: Seq<char>, b: Seq<char>|
        #[trigger] lex_le_fn()(a, b) && #[trigger] lex_le_fn()(b, a) implies a == b by {
        lemma_lex_antisymmetric(a, b);
    }
    assert forall|a: Seq<char>, b: Seq<char>, c: Seq<char>|
        #[trigger] lex_le_fn()(a, b) && #[trigger] lex_le_fn()(b, c) implies lex_le_fn()(a, c) by {
        lemma_lex_transitive(a, b, c);
    }
    assert forall|a: Seq<char>, b: Seq<char>|
        #[trigger] lex_le_fn()(a, b) || #[trigger] lex_le_fn()(b, a) by {
        lemma_lex_total(a, b);
    }
}

/// Whether `a` comes before or equals `b` (`a <= b` on strings).
pub fn string_le(a: &String, b: &String) -> (res: bool)
    ensures
        res == lex_le(a@, b@),
{
    let x = chars_of(a.as_str());
    let y = chars_of(b.as_str());
    let mut i: usize = 0;
    assert(x@.skip(0) =~= x@);
    assert(y@.skip(0) =~= y@);
    while i < x.len() && i < y.len() && x[i] == y[i]
        invariant
            i <= x.len(),
            i <= y.len(),
            lex_le(a@, b@) == lex_le(x@.skip(i as int), y@.skip(i as int)),
            x@ == a@,
            y@ == b@,
        decreases x.len() - i,
    {
        assert(x@.skip(i as int).drop_first() =~= x@.skip(i + 1));
        assert(y@.skip(i as int).drop_first() =~= y@.skip(i + 1));
        i = i + 1;
    }
    if i == x.len() {
        true
    } else if i == y.len() {
        false
    } else {
        x[i] < y[i]
    }
}

/// The texts of `v`.
pub open spec fn strings_view(v: Seq<String>) -> Seq<Seq<char>> {
    v.map_values(|s: String| s@)
}

/// The strings of `v` in ascending order (`slice::sort` on `String`s).
pub fn sort_strings(v: Vec<String>) -> (res: Vec<String>)
    ensures
        strings_view(res@) == strings_view(v@).sort_by(lex_le_fn()),
{
    broadcast use vstd::seq_lib::group_to_multiset_ensures;

    let ghost all = strings_view(v@);
    let ghost leq = lex_le_fn();
    proof {
        lemma_lex_total_ordering();
    }
    let mut out: Vec<String> = Vec::new();
    let mut i: usize = 0;
    assert(strings_view(out@) =~= seq![]);
    assert(all.take(0) =~= seq![]);
    while i < v.len()
        invariant
            i <= v.len(),
            all == strings_view(v@),
            leq == lex_le_fn(),
            vstd::relations::total_ordering(leq),
            vstd::relations::sorted_by(strings_view(out@), leq),
            strings_view(out@).to_multiset() == all.take(i as int).to_multiset(),
        decreases v.len() - i,
    {
        let x = &v[i];
        let ghost so = strings_view(out@);
        let mut p: usize = 0;
        while p < out.len() && string_le(&out[p], x)
            invariant
                p <= out.len(),
                so == strings_view(out@),
                forall|j: int| 0 <= j < p ==> lex_le(so[j], x@),
            decreases out.len() - p,
        {
            p = p + 1;
        }
        proof {
            if p < out.len() {
                lemma_lex_total(so[p as int], x@);
            }
        }
        out.insert(p, x.clone());
        let ghost sn = strings_view(out@);
        assert(sn =~= so.insert(p as int, x@));
        proof {
            assert forall|a: int, b: int| 0 <= a < b < sn.len() implies #[trigger] leq(sn[a], sn[b]) by {
                if b < p {
                } else if b == p {
                    assert(lex_le(so[a], x@));
                } else if a < p {
                    assert(leq(so[a], so[b - 1]));
                } else if a == p {
                    if b - 1 == p {
                    } else {
                        assert(leq(so[p as int], so[b - 1]));
                        lemma_lex_transitive(x@, so[p as int], so[b - 1]);
                    }
                } else {
                    assert(leq(so[a - 1], so[b - 1]));
                }
            }
            vstd::seq_lib::to_multiset_insert(so, p as int, x@);
            assert(all.take(i + 1) =~= all.take(i as int).push(all[i as int]));
            vstd::seq_lib::to_multiset_build(all.take(i as int), all[i as int]);
        }
        i = i + 1;
    }
    proof {
        assert(all.take(v.len() as int) =~= all);
        all.lemma_sort_by_ensures(leq);
        vstd::seq_lib::lemma_sorted_unique(strings_view(out@), all.sort_by(leq), leq);
    }
    out
}

/// The ASCII characters that `char::is_whitespace` accepts: space, tab,
/// line feed, vertical tab, form feed and carriage return.
pub open spec fn ascii_white_space(c: char) -> bool {
    c == ' ' || c == '\t' || c == '\n' || c == '\u{0B}' || c == '\u{0C}' || c == '\r'
}

proof fn lemma_trim_start_push(s: Seq<char>, c: char)
    requires
        is_ws(c),
    ensures
        trim_start(s.push(c)) == if trim_start(s).len() > 0 {
            trim_start(s).push(c)
        } else {
            Seq::<char>::empty()
        },
    decreases s.len(),
{
    if s.len() == 0 {
        let t = s.push(c);
        assert(t[0] == c);
        assert(t.drop_first() =~= Seq::<char>::empty());
        assert(trim_start(t) == trim_start(t.drop_first()));
        assert(trim_start(Seq::<char>::empty()) == Seq::<char>::empty());
        assert(trim_start(s) == s);
    } else if is_ws(s[0]) {
        assert(s.push(c)[0] == s[0]);
        assert(s.push(c).drop_first() =~= s.drop_first().push(c));
        lemma_trim_start_push(s.drop_first(), c);
        assert(trim_start(s.push(c)) == trim_start(s.push(c).drop_first()));
        assert(trim_start(s) == trim_start(s.drop_first()));
    } else {
        assert(s.push(c)[0] == s[0]);
        assert(trim_start(s) == s);
        assert(trim_start(s.push(c)) == s.push(c));
    }
}

/// Trimming drops a white-space character put before or after a text:
/// for each ASCII character that `char::is_whitespace` accepts (tab among
/// them), trimming the text with it in front, or at the end, gives what
/// trimming the text alone gives.
pub proof fn lemma_trim_drops_white_space(s: Seq<char>, c: char)
    requires
        ascii_white_space(c),
    ensures
        trim(seq![c] + s) == trim(s),
        trim(s.push(c)) == trim(s),
{
    assert(is_ws(c));
    let t = seq![c] + s;
    assert(t[0] == c);
    assert(t.drop_first() =~= s);
    assert(trim_start(t) == trim_start(s));
    lemma_trim_start_push(s, c);
    let ts = trim_start(s);
    if ts.len() > 0 {
        assert(ts.push(c).last() == c);
        assert(ts.push(c).drop_last() =~= ts);
        assert(trim_end(ts.push(c)) == trim_end(ts));
    }
}

} // verus!
