//! Character-level text operations: searching, splitting and trimming.
//!
//! Every operation works on the characters of a string (its `@` view) and is
//! specified by a spec function over `Seq<char>` that mirrors the meaning of
//! the corresponding `str` method (`find`, `split(..).nth(..)`, `trim`, ...).
use vstd::prelude::*;
use vstd::string::StrSliceExecFns;
use vstd::utf8::is_ascii_chars;

verus! {

/// `pat` occurs in `s` starting at index `i`.
pub open spec fn matches_at(s: Seq<char>, pat: Seq<char>, i: int) -> bool {
    0 <= i && i + pat.len() <= s.len() && s.subrange(i, i + pat.len()) == pat
}

/// The first index `i >= from` at which `pat` occurs in `s`.
pub open spec fn find_from(s: Seq<char>, pat: Seq<char>, from: int) -> Option<int>
    decreases s.len() + 1 - from,
{
    if from < 0 || from + pat.len() > s.len() {
        None
    } else if matches_at(s, pat, from) {
        Some(from)
    } else {
        find_from(s, pat, from + 1)
    }
}

/// `s` contains `pat` (as `str::contains` with a string pattern).
pub open spec fn contains(s: Seq<char>, pat: Seq<char>) -> bool {
    find_from(s, pat, 0) is Some
}

/// The `n`-th piece of splitting `s[from..]` at the non-overlapping
/// occurrences of `pat`, scanning from the left, as `str::split` yields them.
pub open spec fn split_piece(s: Seq<char>, pat: Seq<char>, from: int, n: nat) -> Option<Seq<char>>
    decreases n,
{
    match find_from(s, pat, from) {
        Some(i) => if n == 0 {
            Some(s.subrange(from, i))
        } else {
            split_piece(s, pat, i + pat.len(), (n - 1) as nat)
        },
        None => if n == 0 {
            Some(s.subrange(from, s.len() as int))
        } else {
            None
        },
    }
}

/// `s.split(pat).nth(n)` for a non-empty pattern `pat`.
pub open spec fn nth_piece(s: Seq<char>, pat: Seq<char>, n: nat) -> Option<Seq<char>> {
    split_piece(s, pat, 0, n)
}

/// The Unicode `White_Space` property, which `char::is_whitespace` tests.
pub open spec fn is_white_space(c: char) -> bool {
    let u = c as u32;
    ||| 0x9 <= u <= 0xd
    ||| u == 0x20
    ||| u == 0x85
    ||| u == 0xa0
    ||| u == 0x1680
    ||| 0x2000 <= u <= 0x200a
    ||| u == 0x2028
    ||| u == 0x2029
    ||| u == 0x202f
    ||| u == 0x205f
    ||| u == 0x3000
}

/// `s` with leading white space removed (`str::trim_start`).
pub open spec fn trim_start(s: Seq<char>) -> Seq<char>
    decreases s.len(),
{
    if s.len() > 0 && is_white_space(s[0]) {
        trim_start(s.drop_first())
    } else {
        s
    }
}

/// `s` with trailing white space removed (`str::trim_end`).
pub open spec fn trim_end(s: Seq<char>) -> Seq<char>
    decreases s.len(),
{
    if s.len() > 0 && is_white_space(s.last()) {
        trim_end(s.drop_last())
    } else {
        s
    }
}

/// `s` with leading and trailing white space removed (`str::trim`).
pub open spec fn trim(s: Seq<char>) -> Seq<char> {
    trim_end(trim_start(s))
}

/// `s` with every leading `c` removed (`str::trim_start_matches` with a char).
pub open spec fn trim_start_char(s: Seq<char>, c: char) -> Seq<char>
    decreases s.len(),
{
    if s.len() > 0 && s[0] == c {
        trim_start_char(s.drop_first(), c)
    } else {
        s
    }
}

/// `s[from..]` with every non-overlapping occurrence of `pat` replaced by `rep`
/// (`str::replace`), for a non-empty pattern.
pub open spec fn replace_from(s: Seq<char>, pat: Seq<char>, rep: Seq<char>, from: int) -> Seq<char>
    decreases s.len() - from,
{
    match find_from(s, pat, from) {
        Some(i) => if pat.len() > 0 && from <= i && i + pat.len() <= s.len() {
            s.subrange(from, i) + rep + replace_from(s, pat, rep, i + pat.len())
        } else {
            s.subrange(from, s.len() as int)
        },
        None => s.subrange(from, s.len() as int),
    }
}

/// `s.replace(pat, rep)`.
pub open spec fn replace_all(s: Seq<char>, pat: Seq<char>, rep: Seq<char>) -> Seq<char> {
    replace_from(s, pat, rep, 0)
}

/// The result of `find_from` is a match at or after `from`, and nothing
/// matches between `from` and it.
pub proof fn lemma_find_from(s: Seq<char>, pat: Seq<char>, from: int)
    requires
        0 <= from,
    ensures
        match find_from(s, pat, from) {
            Some(i) => from <= i && matches_at(s, pat, i) && forall|j: int|
                from <= j < i ==> !matches_at(s, pat, j),
            None => forall|j: int| from <= j ==> !matches_at(s, pat, j),
        },
    decreases s.len() + 1 - from,
{
    if from + pat.len() <= s.len() && !matches_at(s, pat, from) {
        lemma_find_from(s, pat, from + 1);
    }
}

/// Skipping a prefix of white space does not change `trim_start`.
pub proof fn lemma_trim_start_skip(s: Seq<char>, k: int)
    requires
        0 <= k <= s.len(),
        forall|j: int| 0 <= j < k ==> is_white_space(#[trigger] s[j]),
    ensures
        trim_start(s) == trim_start(s.subrange(k, s.len() as int)),
    decreases k,
{
    if k == 0 {
        assert(s.subrange(0, s.len() as int) =~= s);
    } else {
        let t = s.drop_first();
        assert forall|j: int| 0 <= j < k - 1 implies is_white_space(#[trigger] t[j]) by {
            assert(t[j] == s[j + 1]);
        }
        lemma_trim_start_skip(t, k - 1);
        assert(t.subrange(k - 1, t.len() as int) =~= s.subrange(k, s.len() as int));
    }
}

/// Skipping a suffix of white space does not change `trim_end`.
pub proof fn lemma_trim_end_skip(s: Seq<char>, k: int)
    requires
        0 <= k <= s.len(),
        forall|j: int| k <= j < s.len() ==> is_white_space(#[trigger] s[j]),
    ensures
        trim_end(s) == trim_end(s.subrange(0, k)),
    decreases s.len() - k,
{
    if k == s.len() {
        assert(s.subrange(0, k) =~= s);
    } else {
        let t = s.drop_last();
        assert forall|j: int| k <= j < t.len() implies is_white_space(#[trigger] t[j]) by {
            assert(t[j] == s[j]);
        }
        lemma_trim_end_skip(t, k);
        assert(t.subrange(0, k) =~= s.subrange(0, k));
    }
}

/// Skipping leading copies of `c` does not change `trim_start_char`.
pub proof fn lemma_trim_start_char_skip(s: Seq<char>, c: char, k: int)
    requires
        0 <= k <= s.len(),
        forall|j: int| 0 <= j < k ==> #[trigger] s[j] == c,
    ensures
        trim_start_char(s, c) == trim_start_char(s.subrange(k, s.len() as int), c),
    decreases k,
{
    if k == 0 {
        assert(s.subrange(0, s.len() as int) =~= s);
    } else {
        let t = s.drop_first();
        assert forall|j: int| 0 <= j < k - 1 implies #[trigger] t[j] == c by {
            assert(t[j] == s[j + 1]);
        }
        lemma_trim_start_char_skip(t, c, k - 1);
        assert(t.subrange(k - 1, t.len() as int) =~= s.subrange(k, s.len() as int));
    }
}

/// Appends `c` to `s` (`String::push`).
#[verifier::external_body]
pub(crate) fn push_char(s: &mut String, c: char)
    ensures
        final(s)@ == old(s)@.push(c),
{
    s.push(c);
}

/// The characters of `s`, in order.
pub fn chars_of(s: &str) -> (v: Vec<char>)
    ensures
        v@ == s@,
{
    let n = s.unicode_len();
    let mut v: Vec<char> = Vec::new();
    let mut i: usize = 0;
    while i < n
        invariant
            n == s@.len(),
            i <= n,
            v@ == s@.subrange(0, i as int),
        decreases n - i,
    {
        v.push(s.get_char(i));
        i = i + 1;
    }
    assert(s@.subrange(0, n as int) =~= s@);
    v
}

/// The string made of the characters `v`.
pub fn string_of(v: &Vec<char>) -> (s: String)
    ensures
        s@ == v@,
{
    let mut s = String::new();
    let mut i: usize = 0;
    while i < v.len()
        invariant
            i <= v.len(),
            s@ == v@.subrange(0, i as int),
        decreases v.len() - i,
    {
        push_char(&mut s, v[i]);
        i = i + 1;
    }
    assert(v@.subrange(0, v.len() as int) =~= v@);
    s
}

/// The characters `v[a..b]`.
pub fn slice_chars(v: &Vec<char>, a: usize, b: usize) -> (r: Vec<char>)
    requires
        a <= b <= v.len(),
    ensures
        r@ == v@.subrange(a as int, b as int),
{
    let mut r: Vec<char> = Vec::new();
    let mut i: usize = a;
    while i < b
        invariant
            a <= i <= b,
            b <= v.len(),
            r@ == v@.subrange(a as int, i as int),
        decreases b - i,
    {
        r.push(v[i]);
        i = i + 1;
    }
    r
}

/// Appends `src[a..b]` to `dst`.
pub fn push_slice(dst: &mut Vec<char>, src: &Vec<char>, a: usize, b: usize)
    requires
        a <= b <= src.len(),
    ensures
        final(dst)@ == old(dst)@ + src@.subrange(a as int, b as int),
{
    let ghost start = dst@;
    let mut i: usize = a;
    while i < b
        invariant
            a <= i <= b,
            b <= src.len(),
            dst@ == start + src@.subrange(a as int, i as int),
        decreases b - i,
    {
        dst.push(src[i]);
        i = i + 1;
    }
}

/// Whether `c` is white space (`char::is_whitespace`).
pub fn is_white_space_char(c: char) -> (b: bool)
    ensures
        b == is_white_space(c),
{
    let u = c as u32;
    (0x9 <= u && u <= 0xd) || u == 0x20 || u == 0x85 || u == 0xa0 || u == 0x1680 || (0x2000 <= u
        && u <= 0x200a) || u == 0x2028 || u == 0x2029 || u == 0x202f || u == 0x205f || u == 0x3000
}

/// Whether `pat` occurs in `s` at index `i`.
pub fn matches_at_exec(s: &Vec<char>, pat: &Vec<char>, i: usize) -> (b: bool)
    ensures
        b == matches_at(s@, pat@, i as int),
{
    if i > s.len() || pat.len() > s.len() - i {
        return false;
    }
    let mut k: usize = 0;
    while k < pat.len()
        invariant
            i + pat.len() <= s.len(),
            k <= pat.len(),
            forall|j: int| 0 <= j < k ==> s@[i + j] == pat@[j],
        decreases pat.len() - k,
    {
        if s[i + k] != pat[k] {
            assert(s@.subrange(i as int, i + pat.len())[k as int] != pat@[k as int]);
            return false;
        }
        k = k + 1;
    }
    assert(s@.subrange(i as int, i + pat.len()) =~= pat@);
    true
}

/// The first index at or after `from` where `pat` occurs in `s` (`str::find`).
pub fn find_from_exec(s: &Vec<char>, pat: &Vec<char>, from: usize) -> (r: Option<usize>)
    ensures
        match r {
            Some(i) => find_from(s@, pat@, from as int) == Some(i as int),
            None => find_from(s@, pat@, from as int) is None,
        },
{
    if from > s.len() {
        return None;
    }
    let mut i: usize = from;
    while i < s.len() && pat.len() <= s.len() - i
        invariant
            from <= i <= s.len(),
            find_from(s@, pat@, from as int) == find_from(s@, pat@, i as int),
        decreases s.len() - i,
    {
        if matches_at_exec(s, pat, i) {
            return Some(i);
        }
        i = i + 1;
    }
    if pat.len() <= s.len() - i && matches_at_exec(s, pat, i) {
        return Some(i);
    }
    proof {
        if i + pat@.len() <= s@.len() {
            assert(find_from(s@, pat@, i + 1) is None);
        }
    }
    None
}

/// Whether `pat` occurs in `s` (`str::contains`).
pub fn contains_exec(s: &Vec<char>, pat: &Vec<char>) -> (b: bool)
    ensures
        b == contains(s@, pat@),
{
    find_from_exec(s, pat, 0).is_some()
}

/// `s.split(pat).nth(n)`.
pub fn nth_piece_exec(s: &Vec<char>, pat: &Vec<char>, n: usize) -> (r: Option<Vec<char>>)
    requires
        pat@.len() > 0,
    ensures
        match r {
            Some(p) => nth_piece(s@, pat@, n as nat) == Some(p@),
            None => nth_piece(s@, pat@, n as nat) is None,
        },
{
    let mut from: usize = 0;
    let mut k: usize = n;
    loop
        invariant
            from <= s.len(),
            pat@.len() > 0,
            nth_piece(s@, pat@, n as nat) == split_piece(s@, pat@, from as int, k as nat),
        decreases k,
    {
        match find_from_exec(s, pat, from) {
            Some(i) => {
                proof {
                    lemma_find_from(s@, pat@, from as int);
                }
                if k == 0 {
                    return Some(slice_chars(s, from, i));
                }
                from = i + pat.len();
                k = k - 1;
            },
            None => {
                if k == 0 {
                    return Some(slice_chars(s, from, s.len()));
                }
                return None;
            },
        }
    }
}

/// `s.split(pat).next()`: the text before the first occurrence of `pat`.
pub fn first_piece_exec(s: &Vec<char>, pat: &Vec<char>) -> (r: Vec<char>)
    requires
        pat@.len() > 0,
    ensures
        nth_piece(s@, pat@, 0) == Some(r@),
{
    match find_from_exec(s, pat, 0) {
        Some(i) => {
            proof {
                lemma_find_from(s@, pat@, 0);
            }
            slice_chars(s, 0, i)
        },
        None => slice_chars(s, 0, s.len()),
    }
}

/// `s.trim()`.
pub fn trim_exec(s: &Vec<char>) -> (r: Vec<char>)
    ensures
        r@ == trim(s@),
{
    let mut a: usize = 0;
    while a < s.len() && is_white_space_char(s[a])
        invariant
            a <= s.len(),
            forall|j: int| 0 <= j < a ==> is_white_space(#[trigger] s@[j]),
        decreases s.len() - a,
    {
        a = a + 1;
    }
    let ghost t = s@.subrange(a as int, s@.len() as int);
    proof {
        lemma_trim_start_skip(s@, a as int);
        if t.len() > 0 {
            assert(t[0] == s@[a as int]);
        }
        assert(trim_start(t) == t);
    }
    let mut b: usize = s.len();
    while b > a && is_white_space_char(s[b - 1])
        invariant
            a <= b <= s.len(),
            t == s@.subrange(a as int, s@.len() as int),
            forall|j: int| b - a <= j < t.len() ==> is_white_space(#[trigger] t[j]),
        decreases b,
    {
        assert(t[b - 1 - a] == s@[b - 1]);
        b = b - 1;
    }
    proof {
        lemma_trim_end_skip(t, b - a);
        let u = t.subrange(0, b - a);
        assert(u =~= s@.subrange(a as int, b as int));
        if u.len() > 0 {
            assert(u.last() == s@[b - 1]);
        }
        assert(trim_end(u) == u);
    }
    slice_chars(s, a, b)
}

/// `s.trim_start_matches(c)`.
pub fn trim_start_char_exec(s: &Vec<char>, c: char) -> (r: Vec<char>)
    ensures
        r@ == trim_start_char(s@, c),
{
    let mut a: usize = 0;
    while a < s.len() && s[a] == c
        invariant
            a <= s.len(),
            forall|j: int| 0 <= j < a ==> #[trigger] s@[j] == c,
        decreases s.len() - a,
    {
        a = a + 1;
    }
    proof {
        lemma_trim_start_char_skip(s@, c, a as int);
        let t = s@.subrange(a as int, s@.len() as int);
        if t.len() > 0 {
            assert(t[0] == s@[a as int]);
        }
        assert(trim_start_char(t, c) == t);
    }
    slice_chars(s, a, s.len())
}

/// `s.replace(pat, rep)`.
pub fn replace_all_exec(s: &Vec<char>, pat: &Vec<char>, rep: &Vec<char>) -> (r: Vec<char>)
    requires
        pat@.len() > 0,
    ensures
        r@ == replace_all(s@, pat@, rep@),
{
    let mut out: Vec<char> = Vec::new();
    let mut from: usize = 0;
    loop
        invariant
            from <= s.len(),
            pat@.len() > 0,
            out@ + replace_from(s@, pat@, rep@, from as int) == replace_all(s@, pat@, rep@),
        decreases s.len() - from,
    {
        match find_from_exec(s, pat, from) {
            Some(i) => {
                proof {
                    lemma_find_from(s@, pat@, from as int);
                }
                let ghost before = out@;
                push_slice(&mut out, s, from, i);
                push_slice(&mut out, rep, 0, rep.len());
                proof {
                    assert(rep@.subrange(0, rep@.len() as int) =~= rep@);
                    let rest = replace_from(s@, pat@, rep@, i + pat@.len());
                    assert(replace_from(s@, pat@, rep@, from as int) == s@.subrange(
                        from as int,
                        i as int,
                    ) + rep@ + rest);
                    assert(before + (s@.subrange(from as int, i as int) + rep@ + rest) =~= out@
                        + rest);
                }
                from = i + pat.len();
            },
            None => {
                push_slice(&mut out, s, from, s.len());
                return out;
            },
        }
    }
}

/// `trim_start` drops a prefix, and what it keeps starts with no white space.
pub proof fn lemma_trim_start_shape(s: Seq<char>)
    ensures
        exists|k: int| 0 <= k <= s.len() && #[trigger] s.subrange(k, s.len() as int) == trim_start(s),
        trim_start(s).len() > 0 ==> !is_white_space(trim_start(s)[0]),
    decreases s.len(),
{
    if s.len() > 0 && is_white_space(s[0]) {
        lemma_trim_start_shape(s.drop_first());
        let k = choose|k: int|
            0 <= k <= s.drop_first().len() && #[trigger] s.drop_first().subrange(
                k,
                s.drop_first().len() as int,
            ) == trim_start(s.drop_first());
        assert(s.subrange(k + 1, s.len() as int) =~= s.drop_first().subrange(
            k,
            s.drop_first().len() as int,
        ));
    } else {
        assert(s.subrange(0, s.len() as int) =~= s);
    }
}

/// `trim_end` drops a suffix, and what it keeps ends with no white space.
pub proof fn lemma_trim_end_shape(s: Seq<char>)
    ensures
        exists|k: int| 0 <= k <= s.len() && #[trigger] s.subrange(0, k) == trim_end(s),
        trim_end(s).len() > 0 ==> !is_white_space(trim_end(s).last()),
    decreases s.len(),
{
    if s.len() > 0 && is_white_space(s.last()) {
        lemma_trim_end_shape(s.drop_last());
        let k = choose|k: int|
            0 <= k <= s.drop_last().len() && #[trigger] s.drop_last().subrange(0, k) == trim_end(
                s.drop_last(),
            );
        assert(s.subrange(0, k) =~= s.drop_last().subrange(0, k));
    } else {
        assert(s.subrange(0, s.len() as int) =~= s);
    }
}

/// `s` neither starts nor ends with white space.
pub open spec fn is_trimmed(s: Seq<char>) -> bool {
    s.len() > 0 ==> !is_white_space(s[0]) && !is_white_space(s.last())
}

/// Law: a trimmed text starts and ends with no white space, and trimming
/// it again changes nothing.
pub proof fn law_trim_clean(s: Seq<char>)
    ensures
        is_trimmed(trim(s)),
        trim(trim(s)) == trim(s),
{
    let u = trim_start(s);
    lemma_trim_start_shape(s);
    lemma_trim_end_shape(u);
    let t = trim_end(u);
    let k = choose|k: int| 0 <= k <= u.len() && #[trigger] u.subrange(0, k) == t;
    if t.len() > 0 {
        assert(t[0] == u[0]);
    }
    assert(trim_start(t) == t);
    assert(trim_end(t) == t);
}

/// If `pat` occurs at or after `from`, `find_from` finds an occurrence.
pub proof fn lemma_find_some(s: Seq<char>, pat: Seq<char>, from: int, j: int)
    requires
        0 <= from <= j,
        matches_at(s, pat, j),
    ensures
        find_from(s, pat, from) is Some,
{
    lemma_find_from(s, pat, from);
}

/// What trimming the start drops is white space.
proof fn lemma_trim_start_drops_space(s: Seq<char>)
    ensures
        trim_start(s).len() <= s.len(),
        trim_start(s) == s.subrange(s.len() - trim_start(s).len(), s.len() as int),
        forall|j: int| 0 <= j < s.len() - trim_start(s).len() ==> is_white_space(#[trigger] s[j]),
    decreases s.len(),
{
    if s.len() > 0 && is_white_space(s[0]) {
        let r = s.drop_first();
        lemma_trim_start_drops_space(r);
        assert(r.subrange(r.len() - trim_start(r).len(), r.len() as int) =~= s.subrange(
            s.len() - trim_start(r).len(),
            s.len() as int,
        ));
        assert forall|j: int| 0 <= j < s.len() - trim_start(s).len() implies is_white_space(
            #[trigger] s[j],
        ) by {
            if j > 0 {
                assert(s[j] == r[j - 1]);
            }
        }
    } else {
        assert(s.subrange(0, s.len() as int) =~= s);
    }
}

/// What trimming the end drops is white space.
proof fn lemma_trim_end_drops_space(s: Seq<char>)
    ensures
        trim_end(s).len() <= s.len(),
        trim_end(s) == s.subrange(0, trim_end(s).len() as int),
        forall|j: int| trim_end(s).len() <= j < s.len() ==> is_white_space(#[trigger] s[j]),
    decreases s.len(),
{
    if s.len() > 0 && is_white_space(s.last()) {
        let r = s.drop_last();
        lemma_trim_end_drops_space(r);
        assert(r.subrange(0, trim_end(r).len() as int) =~= s.subrange(0, trim_end(r).len() as int));
        assert forall|j: int| trim_end(s).len() <= j < s.len() implies is_white_space(
            #[trigger] s[j],
        ) by {
            if j < s.len() - 1 {
                assert(s[j] == r[j]);
            }
        }
    } else {
        assert(s.subrange(0, s.len() as int) =~= s);
    }
}

/// Law: trimming drops white space from both ends and nothing else: the
/// result is the part of `s` between a run of white space at its start and
/// one at its end, and it neither starts nor ends with white space.
pub proof fn law_trim_drops_only_edge_space(s: Seq<char>)
    ensures
        exists|a: int, b: int|
            0 <= a <= b <= s.len() && #[trigger] s.subrange(a, b) == trim(s) && (forall|j: int|
                0 <= j < a ==> is_white_space(#[trigger] s[j])) && (forall|j: int|
                b <= j < s.len() ==> is_white_space(#[trigger] s[j])),
        is_trimmed(trim(s)),
{
    let u = trim_start(s);
    lemma_trim_start_drops_space(s);
    lemma_trim_end_drops_space(u);
    let a = s.len() - u.len();
    let b = a + trim_end(u).len();
    assert(s.subrange(a, b) =~= trim(s)) by {
        assert forall|j: int| 0 <= j < b - a implies s.subrange(a, b)[j] == trim(s)[j] by {
            assert(trim(s)[j] == u[j]);
            assert(u[j] == s[a + j]);
        }
    }
    assert forall|j: int| b <= j < s.len() implies is_white_space(#[trigger] s[j]) by {
        assert(s[j] == u[j - a]);
    }
    law_trim_clean(s);
}

/// Where the first occurrence of `pat` at or after `from` starts, or the end
/// of `s` when there is none.
pub open spec fn first_or_end(s: Seq<char>, pat: Seq<char>, from: int) -> int {
    match find_from(s, pat, from) {
        Some(k) => k,
        None => s.len() as int,
    }
}

/// The first and second pieces of a split: the text before the first
/// occurrence (all of it when there is none), and the text between the first
/// and the second occurrence (up to the end when there is no second).
pub proof fn lemma_split_pieces(s: Seq<char>, pat: Seq<char>)
    requires
        pat.len() > 0,
    ensures
        nth_piece(s, pat, 0) == Some(s.subrange(0, first_or_end(s, pat, 0))),
        nth_piece(s, pat, 1) == match find_from(s, pat, 0) {
            Some(i) => Some(
                s.subrange(i + pat.len(), first_or_end(s, pat, i + pat.len())),
            ),
            None => None::<Seq<char>>,
        },
        find_from(s, pat, 0) matches Some(i) ==> 0 <= i && i + pat.len() <= s.len()
            && matches_at(s, pat, i),
        first_or_end(s, pat, 0) <= s.len(),
{
    lemma_find_from(s, pat, 0);
    if let Some(i) = find_from(s, pat, 0) {
        lemma_find_from(s, pat, i + pat.len());
        assert(split_piece(s, pat, 0, 1) == split_piece(s, pat, i + pat.len(), 0));
    }
}

/// A text that contains `p` still contains it with more text on either side.
pub proof fn lemma_contains_concat(a: Seq<char>, b: Seq<char>, p: Seq<char>)
    requires
        contains(a, p),
    ensures
        contains(a + b, p),
        contains(b + a, p),
{
    lemma_find_from(a, p, 0);
    let i = find_from(a, p, 0)->0;
    assert((a + b).subrange(i, i + p.len()) =~= a.subrange(i, i + p.len()));
    lemma_find_some(a + b, p, 0, i);
    let j = i + b.len();
    assert((b + a).subrange(j, j + p.len()) =~= a.subrange(i, i + p.len()));
    lemma_find_some(b + a, p, 0, j);
}

/// `s` contains itself.
pub proof fn lemma_contains_self(s: Seq<char>)
    ensures
        contains(s, s),
{
    assert(s.subrange(0, s.len() as int) =~= s);
    lemma_find_some(s, s, 0, 0);
}

/// A text that contains `pat` contains every suffix of `pat`.
pub proof fn lemma_contains_suffix(s: Seq<char>, pat: Seq<char>, k: int)
    requires
        contains(s, pat),
        0 <= k <= pat.len(),
    ensures
        contains(s, pat.subrange(k, pat.len() as int)),
{
    lemma_find_from(s, pat, 0);
    let i = find_from(s, pat, 0)->0;
    let suffix = pat.subrange(k, pat.len() as int);
    assert(s.subrange(i + k, i + k + suffix.len()) =~= suffix) by {
        assert(s.subrange(i, i + pat.len()) == pat);
        assert forall|j: int| 0 <= j < suffix.len() implies s.subrange(
            i + k,
            i + k + suffix.len(),
        )[j] == suffix[j] by {
            assert(s.subrange(i, i + pat.len())[k + j] == pat[k + j]);
        }
    }
    lemma_find_some(s, suffix, 0, i + k);
}

/// An ASCII upper-case letter.
pub open spec fn is_ascii_upper(c: char) -> bool {
    'A' <= c && c <= 'Z'
}

/// An ASCII lower-case letter.
pub open spec fn is_ascii_lower(c: char) -> bool {
    'a' <= c && c <= 'z'
}

/// A character with an ASCII upper-case letter taken to lower case; any
/// other character unchanged.
pub open spec fn ascii_lower_char(c: char) -> char {
    if is_ascii_upper(c) {
        ((c as u32 + 32) as u32) as char
    } else {
        c
    }
}

/// A character with an ASCII lower-case letter taken to upper case; any
/// other character unchanged.
pub open spec fn ascii_upper_char(c: char) -> char {
    if is_ascii_lower(c) {
        ((c as u32 - 32) as u32) as char
    } else {
        c
    }
}

/// A text with its ASCII letters in lower case.
pub open spec fn ascii_lower_text(s: Seq<char>) -> Seq<char> {
    s.map_values(|c: char| ascii_lower_char(c))
}

/// A text with its ASCII letters in upper case (`str::to_ascii_uppercase`).
pub open spec fn ascii_upper_text(s: Seq<char>) -> Seq<char> {
    s.map_values(|c: char| ascii_upper_char(c))
}

/// Law: taking an ASCII text to upper case keeps it ASCII, and its lower-case
/// form is that of the text itself.
pub proof fn law_ascii_case_fold(s: Seq<char>)
    requires
        is_ascii_chars(s),
    ensures
        is_ascii_chars(ascii_upper_text(s)),
        ascii_lower_text(ascii_upper_text(s)) == ascii_lower_text(s),
{
    let u = ascii_upper_text(s);
    assert forall|i: int| 0 <= i < u.len() implies '\0' <= #[trigger] u[i] <= '\u{7f}' by {
        let c = s[i];
        if is_ascii_lower(c) {
            let x: u32 = (c as u32 - 32) as u32;
            assert(x as char == u[i]);
            assert((x as char) as u32 == x);
        }
    }
    assert forall|i: int| 0 <= i < s.len() implies #[trigger] ascii_lower_text(u)[i]
        == ascii_lower_text(s)[i] by {
        let c = s[i];
        if is_ascii_lower(c) {
            let x: u32 = (c as u32 - 32) as u32;
            assert((x as char) as u32 == x);
            assert(is_ascii_upper(u[i]));
            let y: u32 = (x + 32) as u32;
            assert(y == c as u32);
            assert((y as char) == c);
        }
    }
    assert(ascii_lower_text(u) =~= ascii_lower_text(s));
}

/// The lower-case form of a text, as `str::to_lowercase` computes it (by the
/// Unicode `Lowercase` mapping, with the context rule for final sigma).
pub uninterp spec fn lowercase(s: Seq<char>) -> Seq<char>;

/// Calls `str::to_lowercase`.
///
/// The contract names the result `lowercase(s@)`: it depends on the text
/// alone. For a text of ASCII characters alone it states the result: each
/// ASCII upper-case letter becomes its lower-case letter and every other
/// character stays. The Unicode case mapping of other characters is not
/// written out.
#[verifier::external_body]
pub(crate) fn to_lowercase(s: &str) -> (r: String)
    ensures
        r@ == lowercase(s@),
        is_ascii_chars(s@) ==> r@ == ascii_lower_text(s@),
{
    s.to_lowercase()
}

} // verus!
