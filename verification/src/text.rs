//! Character-level string helpers with exact specifications.
use vstd::prelude::*;

verus! {

/// Appending one character to a `String` extends its character sequence by that character.
pub assume_specification[ String::push ](s: &mut String, ch: char)
    ensures
        final(s)@ == old(s)@.push(ch),
;

/// The characters of `s`, in order.
pub fn chars_of(s: &str) -> (v: Vec<char>)
    ensures
        v@ == s@,
{
    let n = s.unicode_len();
    let mut v: Vec<char> = Vec::new();
    let mut i: usize = 0;
    while i < n
        invariant
            n == s@.len(),
            i <= n,
            v@ == s@.subrange(0, i as int),
        decreases n - i,
    {
        let c = s.get_char(i);
        v.push(c);
        i = i + 1;
        assert(v@ =~= s@.subrange(0, i as int));
    }
    assert(v@ =~= s@);
    v
}

/// A `String` holding exactly the characters of `v[from..to]`.
pub fn string_from_range(v: &Vec<char>, from: usize, to: usize) -> (s: String)
    requires
        from <= to <= v@.len(),
    ensures
        s@ == v@.subrange(from as int, to as int),
{
    let mut s = String::new();
    let mut i: usize = from;
    while i < to
        invariant
            from <= i <= to <= v@.len(),
            s@ == v@.subrange(from as int, i as int),
        decreases to - i,
    {
        s.push(v[i]);
        i = i + 1;
        assert(s@ =~= v@.subrange(from as int, i as int));
    }
    s
}


/// Two string slices hold the same characters.
pub fn str_eq(a: &str, b: &str) -> (res: bool)
    ensures
        res == (a@ == b@),
{
    let x = a.to_owned();
    let y = b.to_owned();
    x == y
}

/// The character sequences of a sequence of strings.
pub open spec fn views(v: Seq<String>) -> Seq<Seq<char>> {
    v.map_values(|s: String| s@)
}

/// Two lists of strings hold the same strings in the same order.
pub fn strings_eq(a: &[String], b: &[String]) -> (res: bool)
    ensures
        res == (views(a@) == views(b@)),
{
    if a.len() != b.len() {
        assert(views(a@).len() != views(b@).len());
        return false;
    }
    let mut i: usize = 0;
    while i < a.len()
        invariant
            a@.len() == b@.len(),
            i <= a@.len(),
            forall|k: int| 0 <= k < i ==> a@[k]@ == b@[k]@,
        decreases a@.len() - i,
    {
        if !(a[i] == b[i]) {
            assert(views(a@)[i as int] != views(b@)[i as int]);
            return false;
        }
        i = i + 1;
    }
    assert(views(a@) =~= views(b@));
    true
}

/// Copies a list of strings.
pub fn copy_strings(v: &Vec<String>) -> (r: Vec<String>)
    ensures
        r@ == v@,
{
    let r = v.clone();
    assert(r@ =~= v@);
    r
}

/// The value bound to `key` in a list of environment pairs: the last pair with that key wins,
/// as when such a list is collected into a map.
pub open spec fn env_get(env: Seq<(String, String)>, key: Seq<char>) -> Option<Seq<char>>
    decreases env.len(),
{
    if env.len() == 0 {
        None
    } else if env.last().0@ == key {
        Some(env.last().1@)
    } else {
        env_get(env.drop_last(), key)
    }
}

/// The map that a list of environment pairs stands for.
pub open spec fn env_view(env: Seq<(String, String)>) -> Map<Seq<char>, Seq<char>> {
    Map::new(|k: Seq<char>| env_get(env, k) is Some, |k: Seq<char>| env_get(env, k).unwrap())
}

proof fn lemma_env_get_some_iff(env: Seq<(String, String)>, key: Seq<char>)
    ensures
        env_get(env, key) is Some <==> exists|i: int| 0 <= i < env.len() && env[i].0@ == key,
    decreases env.len(),
{
    if env.len() > 0 {
        lemma_env_get_some_iff(env.drop_last(), key);
        if env_get(env.drop_last(), key) is Some {
            let i = choose|i: int| 0 <= i < env.drop_last().len() && env.drop_last()[i].0@ == key;
            assert(env[i].0@ == key);
        }
        if exists|i: int| 0 <= i < env.len() && env[i].0@ == key {
            let i = choose|i: int| 0 <= i < env.len() && env[i].0@ == key;
            if i < env.len() - 1 {
                assert(env.drop_last()[i].0@ == key);
            }
        }
    }
}

/// Index of the pair that decides the value of `key`, if any.
pub fn env_lookup(env: &Vec<(String, String)>, key: &String) -> (found: Option<usize>)
    ensures
        match found {
            Some(j) => j < env@.len() && env@[j as int].0@ == key@ && env_get(env@, key@) == Some(env@[j as int].1@),
            None => env_get(env@, key@) is None,
        },
{
    let mut found: Option<usize> = None;
    let mut i: usize = 0;
    while i < env.len()
        invariant
            i <= env@.len(),
            match found {
                Some(j) => j < i && env@[j as int].0@ == key@ && env_get(env@.take(i as int), key@) == Some(env@[j as int].1@),
                None => env_get(env@.take(i as int), key@) is None,
            },
        decreases env@.len() - i,
    {
        assert(env@.take(i + 1).drop_last() =~= env@.take(i as int));
        if env[i].0 == *key {
            found = Some(i);
        }
        i = i + 1;
    }
    assert(env@.take(i as int) =~= env@);
    found
}

/// Two environment lists bind the same keys to the same values.
pub fn env_eq(a: &Vec<(String, String)>, b: &Vec<(String, String)>) -> (res: bool)
    ensures
        res == (env_view(a@) == env_view(b@)),
{
    let mut i: usize = 0;
    while i < a.len()
        invariant
            i <= a@.len(),
            forall|k: int| 0 <= k < i ==> env_get(a@, #[trigger] a@[k].0@) == env_get(b@, a@[k].0@),
        decreases a@.len() - i,
    {
        let fa = env_lookup(a, &a[i].0);
        let fb = env_lookup(b, &a[i].0);
        match (fa, fb) {
            (Some(x), Some(y)) => {
                if !(a[x].1 == b[y].1) {
                    assert(env_view(a@)[a@[i as int].0@] != env_view(b@)[a@[i as int].0@]);
                    return false;
                }
            },
            _ => {
                proof { lemma_env_get_some_iff(a@, a@[i as int].0@); }
                assert(env_view(a@).dom().contains(a@[i as int].0@) != env_view(b@).dom().contains(a@[i as int].0@));
                return false;
            },
        }
        i = i + 1;
    }
    let mut j: usize = 0;
    while j < b.len()
        invariant
            j <= b@.len(),
            forall|k: int| 0 <= k < j ==> env_get(a@, #[trigger] b@[k].0@) is Some,
        decreases b@.len() - j,
    {
        let fa = env_lookup(a, &b[j].0);
        if fa.is_none() {
            proof { lemma_env_get_some_iff(b@, b@[j as int].0@); }
            assert(env_view(a@).dom().contains(b@[j as int].0@) != env_view(b@).dom().contains(b@[j as int].0@));
            return false;
        }
        j = j + 1;
    }
    proof {
        assert forall|key: Seq<char>| env_get(a@, key) == env_get(b@, key) by {
            lemma_env_get_some_iff(a@, key);
            lemma_env_get_some_iff(b@, key);
            if env_get(a@, key) is Some {
                let k = choose|k: int| 0 <= k < a@.len() && a@[k].0@ == key;
                assert(env_get(a@, a@[k].0@) == env_get(b@, a@[k].0@));
            } else if env_get(b@, key) is Some {
                let k = choose|k: int| 0 <= k < b@.len() && b@[k].0@ == key;
                assert(env_get(a@, b@[k].0@) is Some);
            }
        }
        assert(env_view(a@) =~= env_view(b@));
    }
    true
}


/// Whether `v` holds a string equal to `s`.
pub fn contains_string(v: &Vec<String>, s: &str) -> (res: bool)
    ensures
        res == (exists|i: int| 0 <= i < v@.len() && v@[i]@ == s@),
{
    let mut i: usize = 0;
    while i < v.len()
        invariant
            i <= v@.len(),
            forall|k: int| 0 <= k < i ==> v@[k]@ != s@,
        decreases v@.len() - i,
    {
        if str_eq(v[i].as_str(), s) {
            return true;
        }
        i = i + 1;
    }
    false
}

/// `v` without the strings equal to `s`, the others kept in order.
pub open spec fn without_string(v: Seq<String>, s: Seq<char>) -> Seq<String>
    decreases v.len(),
{
    if v.len() == 0 {
        v
    } else if v.last()@ == s {
        without_string(v.drop_last(), s)
    } else {
        without_string(v.drop_last(), s).push(v.last())
    }
}

/// Removes from `v` every string equal to `s`.
pub fn retain_not_equal(v: &mut Vec<String>, s: &str)
    ensures
        final(v)@ == without_string(old(v)@, s@),
{
    let mut r: Vec<String> = Vec::new();
    let mut i: usize = 0;
    while i < v.len()
        invariant
            i <= v@.len(),
            v@ == old(v)@,
            r@ == without_string(v@.take(i as int), s@),
        decreases v@.len() - i,
    {
        assert(v@.take(i + 1).drop_last() =~= v@.take(i as int));
        if !str_eq(v[i].as_str(), s) {
            r.push(v[i].clone());
        }
        i = i + 1;
    }
    assert(v@.take(i as int) =~= v@);
    *v = r;
}


/// The decimal digit character for `d` (below ten).
pub open spec fn digit_char(d: nat) -> char {
    if d == 0 { '0' }
    else if d == 1 { '1' }
    else if d == 2 { '2' }
    else if d == 3 { '3' }
    else if d == 4 { '4' }
    else if d == 5 { '5' }
    else if d == 6 { '6' }
    else if d == 7 { '7' }
    else if d == 8 { '8' }
    else { '9' }
}

/// The decimal text of `n`, without sign or leading zeros.
pub open spec fn decimal(n: nat) -> Seq<char>
    decreases n,
{
    if n < 10 {
        seq![digit_char(n)]
    } else {
        decimal(n / 10).push(digit_char(n % 10))
    }
}

fn digit(d: u64) -> (c: char)
    requires
        d < 10,
    ensures
        c == digit_char(d as nat),
{
    if d == 0 { '0' }
    else if d == 1 { '1' }
    else if d == 2 { '2' }
    else if d == 3 { '3' }
    else if d == 4 { '4' }
    else if d == 5 { '5' }
    else if d == 6 { '6' }
    else if d == 7 { '7' }
    else if d == 8 { '8' }
    else { '9' }
}

/// Appends the decimal text of `n` to `s`.
pub fn push_decimal(s: &mut String, n: u64)
    ensures
        final(s)@ == old(s)@ + decimal(n as nat),
    decreases n,
{
    if n >= 10 {
        push_decimal(s, n / 10);
    }
    s.push(digit(n % 10));
    assert(final(s)@ =~= old(s)@ + decimal(n as nat));
}

/// The decimal text of `n`.
pub fn to_decimal(n: u64) -> (s: String)
    ensures
        s@ == decimal(n as nat),
{
    let mut s = String::new();
    push_decimal(&mut s, n);
    assert(s@ =~= decimal(n as nat));
    s
}


/// Whether `s` begins with `p`.
pub open spec fn has_prefix(s: Seq<char>, p: Seq<char>) -> bool {
    p.len() <= s.len() && s.subrange(0, p.len() as int) == p
}

/// Whether `s` begins with `p`.
pub fn starts_with(s: &str, p: &str) -> (res: bool)
    ensures
        res == has_prefix(s@, p@),
{
    let n = s.unicode_len();
    let m = p.unicode_len();
    if m > n {
        return false;
    }
    let mut i: usize = 0;
    while i < m
        invariant
            m <= n,
            n == s@.len(),
            m == p@.len(),
            i <= m,
            forall|k: int| 0 <= k < i ==> s@[k] == p@[k],
        decreases m - i,
    {
        if s.get_char(i) != p.get_char(i) {
            assert(s@.subrange(0, m as int)[i as int] != p@[i as int]);
            return false;
        }
        i = i + 1;
    }
    assert(s@.subrange(0, m as int) =~= p@);
    true
}

/// Whitespace in Unicode's sense (the `White_Space` property), as `char::is_whitespace`
/// documents it.
pub open spec fn is_whitespace(c: char) -> bool {
    let u = c as u32;
    (0x09 <= u <= 0x0d) || u == 0x20 || u == 0x85 || u == 0xa0 || u == 0x1680
        || (0x2000 <= u <= 0x200a) || u == 0x2028 || u == 0x2029 || u == 0x202f
        || u == 0x205f || u == 0x3000
}

fn whitespace(c: char) -> (res: bool)
    ensures
        res == is_whitespace(c),
{
    let u = c as u32;
    (0x09 <= u && u <= 0x0d) || u == 0x20 || u == 0x85 || u == 0xa0 || u == 0x1680
        || (0x2000 <= u && u <= 0x200a) || u == 0x2028 || u == 0x2029 || u == 0x202f
        || u == 0x205f || u == 0x3000
}

/// `s` without its leading whitespace.
pub open spec fn trim_start(s: Seq<char>) -> Seq<char>
    decreases s.len(),
{
    if s.len() > 0 && is_whitespace(s[0]) {
        trim_start(s.drop_first())
    } else {
        s
    }
}

/// `s` without its trailing whitespace.
pub open spec fn trim_end(s: Seq<char>) -> Seq<char>
    decreases s.len(),
{
    if s.len() > 0 && is_whitespace(s.last()) {
        trim_end(s.drop_last())
    } else {
        s
    }
}

/// `s` without leading and trailing whitespace.
pub open spec fn trimmed(s: Seq<char>) -> Seq<char> {
    trim_end(trim_start(s))
}

proof fn lemma_trim_start(s: Seq<char>, i: int)
    requires
        0 <= i <= s.len(),
        forall|k: int| 0 <= k < i ==> is_whitespace(s[k]),
        i == s.len() || !is_whitespace(s[i]),
    ensures
        trim_start(s) == s.subrange(i, s.len() as int),
    decreases i,
{
    if i == 0 {
        assert(s.subrange(0, s.len() as int) =~= s);
    } else {
        let t = s.drop_first();
        assert forall|k: int| 0 <= k < i - 1 implies is_whitespace(t[k]) by {
            assert(t[k] == s[k + 1]);
        }
        if i - 1 < t.len() {
            assert(t[i - 1] == s[i]);
        }
        lemma_trim_start(t, i - 1);
        assert(t.subrange(i - 1, t.len() as int) =~= s.subrange(i, s.len() as int));
    }
}

proof fn lemma_trim_end(s: Seq<char>, j: int)
    requires
        0 <= j <= s.len(),
        forall|k: int| j <= k < s.len() ==> is_whitespace(s[k]),
        j == 0 || !is_whitespace(s[j - 1]),
    ensures
        trim_end(s) == s.subrange(0, j),
    decreases s.len() - j,
{
    if j == s.len() {
        assert(s.subrange(0, j) =~= s);
    } else {
        let t = s.drop_last();
        assert forall|k: int| j <= k < t.len() implies is_whitespace(t[k]) by {
            assert(t[k] == s[k]);
        }
        if j > 0 {
            assert(t[j - 1] == s[j - 1]);
        }
        lemma_trim_end(t, j);
        assert(t.subrange(0, j) =~= s.subrange(0, j));
    }
}

/// The characters of `v[from..to]` without leading and trailing whitespace.
pub fn trim_range(v: &Vec<char>, from: usize, to: usize) -> (s: String)
    requires
        from <= to <= v@.len(),
    ensures
        s@ == trimmed(v@.subrange(from as int, to as int)),
{
    let ghost w = v@.subrange(from as int, to as int);
    let mut i: usize = from;
    while i < to && whitespace(v[i])
        invariant
            from <= i <= to <= v@.len(),
            forall|k: int| from <= k < i ==> is_whitespace(v@[k]),
        decreases to - i,
    {
        i = i + 1;
    }
    proof {
        lemma_trim_start(w, i - from);
        assert(w.subrange(i - from, w.len() as int) =~= v@.subrange(i as int, to as int));
    }
    let mut j: usize = to;
    while j > i && whitespace(v[j - 1])
        invariant
            from <= i <= j <= to <= v@.len(),
            forall|k: int| j <= k < to ==> is_whitespace(v@[k]),
        decreases j - i,
    {
        j = j - 1;
    }
    proof {
        let u = v@.subrange(i as int, to as int);
        assert forall|k: int| j - i <= k < u.len() implies is_whitespace(u[k]) by {
            assert(u[k] == v@[k + i]);
        }
        if j > i {
            assert(u[j - i - 1] == v@[j - 1]);
        }
        lemma_trim_end(u, j - i);
        assert(u.subrange(0, j - i) =~= v@.subrange(i as int, j as int));
    }
    string_from_range(v, i, j)
}

/// `s` without leading and trailing whitespace.
pub fn trim(s: &str) -> (r: String)
    ensures
        r@ == trimmed(s@),
{
    let v = chars_of(s);
    assert(v@.subrange(0, v@.len() as int) =~= s@);
    trim_range(&v, 0, v.len())
}

/// The code point of `c` with ASCII upper-case letters lowered.
pub open spec fn ascii_lower(c: char) -> u32 {
    if 65 <= (c as u32) <= 90 {
        ((c as u32) + 32) as u32
    } else {
        c as u32
    }
}

/// Whether `needle` occurs in `hay` at position `i`, ASCII letters compared without case.
pub open spec fn occurs_ci_at(hay: Seq<char>, needle: Seq<char>, i: int) -> bool {
    0 <= i && i + needle.len() <= hay.len()
        && forall|k: int| 0 <= k < needle.len() ==> ascii_lower(#[trigger] hay[i + k]) == ascii_lower(needle[k])
}

/// Whether `needle` occurs somewhere in `hay`, ASCII letters compared without case.
pub open spec fn contains_ci(hay: Seq<char>, needle: Seq<char>) -> bool {
    exists|i: int| occurs_ci_at(hay, needle, i)
}

fn lower(c: char) -> (r: u32)
    ensures
        r == ascii_lower(c),
{
    let u = c as u32;
    if 65 <= u && u <= 90 {
        u + 32
    } else {
        u
    }
}

/// Whether `needle` occurs in `hay`, ASCII letters compared without case.
pub fn contains_ignore_ascii_case(hay: &Vec<char>, needle: &str) -> (res: bool)
    ensures
        res == contains_ci(hay@, needle@),
{
    let nv = chars_of(needle);
    let n = hay.len();
    let m = nv.len();
    if m > n {
        assert forall|i: int| !occurs_ci_at(hay@, needle@, i) by {}
        return false;
    }
    let mut i: usize = 0;
    while i <= n - m
        invariant
            n == hay@.len(),
            m == needle@.len(),
            nv@ == needle@,
            m <= n,
            i <= n - m + 1,
            forall|p: int| 0 <= p < i ==> !occurs_ci_at(hay@, needle@, p),
        decreases n - i,
    {
        let mut k: usize = 0;
        let mut ok = true;
        while k < m
            invariant
                n == hay@.len(),
                m == needle@.len(),
                nv@ == needle@,
                i + m <= n,
                k <= m,
                ok ==> forall|q: int| 0 <= q < k ==> ascii_lower(#[trigger] hay@[i + q]) == ascii_lower(needle@[q]),
                !ok ==> !occurs_ci_at(hay@, needle@, i as int),
            decreases m - k,
        {
            if ok && lower(hay[i + k]) != lower(nv[k]) {
                ok = false;
                assert(ascii_lower(hay@[i + k]) != ascii_lower(needle@[k as int]));
            }
            k = k + 1;
        }
        if ok {
            assert(occurs_ci_at(hay@, needle@, i as int));
            return true;
        }
        i = i + 1;
    }
    assert forall|p: int| !occurs_ci_at(hay@, needle@, p) by {
        if p >= i {
            assert(p + needle@.len() > hay@.len());
        }
    }
    false
}

/// Whether `needle` occurs in `hay` at position `i`.
pub open spec fn occurs_at(hay: Seq<char>, needle: Seq<char>, i: int) -> bool {
    0 <= i && i + needle.len() <= hay.len()
        && forall|k: int| 0 <= k < needle.len() ==> #[trigger] hay[i + k] == needle[k]
}

/// Whether `needle` occurs somewhere in `hay`.
pub open spec fn contains_seq(hay: Seq<char>, needle: Seq<char>) -> bool {
    exists|i: int| occurs_at(hay, needle, i)
}

/// The first position at or after `from` where `needle` occurs in `hay`, if any.
pub open spec fn first_occurrence_from(hay: Seq<char>, needle: Seq<char>, from: int) -> Option<int> {
    if exists|i: int| from <= i && occurs_at(hay, needle, i) {
        Some(choose|i: int| from <= i && occurs_at(hay, needle, i)
            && forall|p: int| from <= p < i ==> !occurs_at(hay, needle, p))
    } else {
        None
    }
}

/// What the first occurrence at or after `from` is.
pub proof fn lemma_first_occurrence(hay: Seq<char>, needle: Seq<char>, from: int)
    ensures
        match first_occurrence_from(hay, needle, from) {
            Some(i) => from <= i && occurs_at(hay, needle, i)
                && forall|p: int| from <= p < i ==> !occurs_at(hay, needle, p),
            None => forall|p: int| from <= p ==> !occurs_at(hay, needle, p),
        },
{
    if exists|i: int| from <= i && occurs_at(hay, needle, i) {
        let w = choose|i: int| from <= i && occurs_at(hay, needle, i);
        lemma_least_occurrence(hay, needle, from, w);
    }
}

proof fn lemma_least_occurrence(hay: Seq<char>, needle: Seq<char>, from: int, w: int)
    requires
        from <= w,
        occurs_at(hay, needle, w),
    ensures
        exists|i: int| from <= i && occurs_at(hay, needle, i)
            && forall|p: int| from <= p < i ==> !occurs_at(hay, needle, p),
    decreases w - from,
{
    if forall|p: int| from <= p < w ==> !occurs_at(hay, needle, p) {
        assert(from <= w && occurs_at(hay, needle, w));
    } else {
        let q = choose|p: int| from <= p < w && occurs_at(hay, needle, p);
        lemma_least_occurrence(hay, needle, from, q);
    }
}

/// Whether the characters of `hay` from `i` on match `needle`.
fn matches_at(hay: &Vec<char>, needle: &Vec<char>, i: usize) -> (res: bool)
    requires
        i + needle@.len() <= hay@.len(),
    ensures
        res == occurs_at(hay@, needle@, i as int),
{
    let m = needle.len();
    let n = hay.len();
    let mut k: usize = 0;
    while k < m
        invariant
            m == needle@.len(),
            n == hay@.len(),
            i + m <= n,
            k <= m,
            forall|q: int| 0 <= q < k ==> #[trigger] hay@[i + q] == needle@[q],
        decreases m - k,
    {
        if hay[i + k] != needle[k] {
            assert(hay@[i + k] != needle@[k as int]);
            return false;
        }
        k = k + 1;
    }
    true
}

/// The first position at or after `from` where `needle` occurs in `hay`.
pub fn find_from(hay: &Vec<char>, needle: &Vec<char>, from: usize) -> (r: Option<usize>)
    ensures
        match r {
            Some(i) => first_occurrence_from(hay@, needle@, from as int) == Some(i as int),
            None => first_occurrence_from(hay@, needle@, from as int) is None,
        },
{
    let n = hay.len();
    let m = needle.len();
    if m > n || from > n - m {
        assert forall|i: int| from <= i implies !occurs_at(hay@, needle@, i) by {}
        return None;
    }
    let mut i: usize = from;
    while i <= n - m
        invariant
            n == hay@.len(),
            m == needle@.len(),
            m <= n,
            from <= i <= n - m + 1,
            forall|p: int| from <= p < i ==> !occurs_at(hay@, needle@, p),
        decreases n - i,
    {
        if matches_at(hay, needle, i) {
            let ghost j = choose|j: int| from <= j && occurs_at(hay@, needle@, j)
                && forall|p: int| from <= p < j ==> !occurs_at(hay@, needle@, p);
            assert(j == i) by {
                if j < i {
                    assert(!occurs_at(hay@, needle@, j));
                }
                if i < j {
                    assert(!occurs_at(hay@, needle@, i as int));
                }
            }
            return Some(i);
        }
        i = i + 1;
    }
    assert forall|p: int| from <= p implies !occurs_at(hay@, needle@, p) by {
        if p >= i {
            assert(p + needle@.len() > hay@.len());
        }
    }
    None
}

/// Whether `needle` occurs in `hay`.
pub fn contains_str(hay: &str, needle: &str) -> (res: bool)
    ensures
        res == contains_seq(hay@, needle@),
{
    let h = chars_of(hay);
    let n = chars_of(needle);
    match find_from(&h, &n, 0) {
        Some(_) => true,
        None => {
            assert forall|i: int| !occurs_at(hay@, needle@, i) by {
                if 0 <= i {
                    assert(!occurs_at(h@, n@, i));
                }
            }
            false
        },
    }
}

/// Position of the first `c` in `s`, or -1.
pub open spec fn first_index_of(s: Seq<char>, c: char) -> int {
    if exists|i: int| 0 <= i < s.len() && s[i] == c {
        choose|i: int| 0 <= i < s.len() && s[i] == c && forall|k: int| 0 <= k < i ==> s[k] != c
    } else {
        -1
    }
}

proof fn lemma_first_index_of(s: Seq<char>, c: char, i: int)
    requires
        0 <= i < s.len(),
        s[i] == c,
        forall|k: int| 0 <= k < i ==> s[k] != c,
    ensures
        first_index_of(s, c) == i,
{
    let j = first_index_of(s, c);
    assert(0 <= j < s.len() && s[j] == c && forall|k: int| 0 <= k < j ==> s[k] != c);
    if j < i {
        assert(s[j] != c);
    }
    if i < j {
        assert(s[i] != c);
    }
}

/// The pieces of `s` between the occurrences of `c`, as `str::split` gives them: one
/// more piece than there are separators, empty pieces kept.
#[verifier::opaque]
pub open spec fn split_on(s: Seq<char>, c: char) -> Seq<Seq<char>>
    decreases s.len(),
{
    let i = first_index_of(s, c);
    if 0 <= i < s.len() {
        seq![s.subrange(0, i)] + split_on(s.subrange(i + 1, s.len() as int), c)
    } else {
        seq![s]
    }
}

/// Splitting `s[start..]` at its first `c`, found at `k`.
#[verifier::rlimit(40)]
pub proof fn lemma_split_step(s: Seq<char>, c: char, start: int, k: int)
    requires
        0 <= start <= k < s.len(),
        s[k] == c,
        forall|q: int| start <= q < k ==> s[q] != c,
    ensures
        split_on(s.subrange(start, s.len() as int), c) == seq![s.subrange(start, k)]
            + split_on(s.subrange(k + 1, s.len() as int), c),
{
    let rest = s.subrange(start, s.len() as int);
    reveal(split_on);
    lemma_first_index_of(rest, c, k - start);
    assert(rest.subrange(0, k - start) =~= s.subrange(start, k));
    assert(rest.subrange(k - start + 1, rest.len() as int) =~= s.subrange(k + 1, s.len() as int));
}

/// `s[start..]` holds no `c`: it is a single piece.
pub proof fn lemma_split_last(s: Seq<char>, c: char, start: int)
    requires
        0 <= start <= s.len(),
        forall|q: int| start <= q < s.len() ==> s[q] != c,
    ensures
        split_on(s.subrange(start, s.len() as int), c) == seq![s.subrange(start, s.len() as int)],
{
    let rest = s.subrange(start, s.len() as int);
    reveal(split_on);
    assert(!(exists|i: int| 0 <= i < rest.len() && rest[i] == c)) by {
        assert forall|i: int| 0 <= i < rest.len() implies rest[i] != c by {
            assert(rest[i] == s[i + start]);
        }
    }
}

/// Whether `c` is an ASCII digit.
pub open spec fn is_digit(c: char) -> bool {
    '0' <= c <= '9'
}

/// The value of the ASCII digit `c`.
pub open spec fn digit_value(c: char) -> int {
    (c as int) - ('0' as int)
}

/// Whether `s` is made of ASCII digits only.
pub open spec fn all_digits(s: Seq<char>) -> bool {
    forall|i: int| 0 <= i < s.len() ==> is_digit(#[trigger] s[i])
}

/// The number that the digits `s` write in decimal.
pub open spec fn digits_value(s: Seq<char>) -> int
    decreases s.len(),
{
    if s.len() == 0 {
        0
    } else {
        digits_value(s.drop_last()) * 10 + digit_value(s.last())
    }
}

/// The integer a text writes as `i64::from_str` reads it: an optional `+` or `-` and at
/// least one ASCII digit, nothing else.
pub open spec fn int_text_value(s: Seq<char>) -> Option<int> {
    if s.len() > 0 && (s[0] == '-' || s[0] == '+') {
        let body = s.drop_first();
        if body.len() > 0 && all_digits(body) {
            Some(if s[0] == '-' { -digits_value(body) } else { digits_value(body) })
        } else {
            None
        }
    } else if s.len() > 0 && all_digits(s) {
        Some(digits_value(s))
    } else {
        None
    }
}

/// What `i64::from_str` gives for `s`: the integer it writes, when that fits an `i64`.
pub open spec fn i64_text_value(s: Seq<char>) -> Option<i64> {
    match int_text_value(s) {
        Some(v) => if i64::MIN <= v <= i64::MAX { Some(v as i64) } else { None },
        None => None,
    }
}

proof fn lemma_digits_nonneg(s: Seq<char>)
    requires
        all_digits(s),
    ensures
        digits_value(s) >= 0,
    decreases s.len(),
{
    if s.len() > 0 {
        assert(is_digit(s[s.len() - 1]));
        lemma_digits_nonneg(s.drop_last());
    }
}

proof fn lemma_digits_prefix_le(s: Seq<char>, j: int)
    requires
        all_digits(s),
        0 <= j <= s.len(),
    ensures
        digits_value(s.subrange(0, j)) <= digits_value(s),
    decreases s.len(),
{
    if j < s.len() {
        assert(is_digit(s[s.len() - 1]));
        lemma_digits_nonneg(s.drop_last());
        lemma_digits_prefix_le(s.drop_last(), j);
        assert(s.drop_last().subrange(0, j) =~= s.subrange(0, j));
    } else {
        assert(s.subrange(0, j) =~= s);
    }
}

fn digit_of(c: char) -> (d: i128)
    requires
        is_digit(c),
    ensures
        d == digit_value(c),
        0 <= d <= 9,
{
    (c as u32 - '0' as u32) as i128
}

/// `i64::from_str` on `s`, checked digit by digit.
pub fn parse_i64(s: &str) -> (r: Option<i64>)
    ensures
        r == i64_text_value(s@),
{
    let v = chars_of(s);
    let n = v.len();
    if n == 0 {
        return None;
    }
    let neg = v[0] == '-';
    let start: usize = if v[0] == '-' || v[0] == '+' { 1 } else { 0 };
    let ghost body = v@.subrange(start as int, n as int);
    if start == 1 {
        assert(body =~= s@.drop_first());
    } else {
        assert(body =~= s@);
    }
    if start == n {
        return None;
    }
    let limit: i128 = 0x8000_0000_0000_0000;
    let mut acc: i128 = 0;
    let mut big = false;
    let mut i: usize = start;
    assert(body.subrange(0, 0) =~= Seq::<char>::empty());
    while i < n
        invariant
            v@ == s@,
            n == v@.len(),
            start <= i <= n,
            body == v@.subrange(start as int, n as int),
            n > 0,
            start == 1 ==> body == s@.drop_first(),
            start == 0 ==> body == s@,
            (start == 1) == (s@[0] == '-' || s@[0] == '+'),
            start <= 1,
            neg == (s@[0] == '-'),
            limit == 0x8000_0000_0000_0000i128,
            all_digits(v@.subrange(start as int, i as int)),
            !big ==> acc == digits_value(body.subrange(0, i - start)) && 0 <= acc <= limit,
            big ==> digits_value(body.subrange(0, i - start)) > limit,
        decreases n - i,
    {
        let c = v[i];
        if !('0' <= c && c <= '9') {
            assert(body[i - start] == c);
            assert(!is_digit(body[i - start]));
            assert(!all_digits(body));
            if start == 0 {
                assert(!all_digits(s@));
            } else {
                assert(!all_digits(s@.drop_first()));
            }
            return None;
        }
        let ghost p = body.subrange(0, i - start);
        let ghost q = body.subrange(0, i - start + 1);
        assert(q.drop_last() =~= p);
        assert(q.last() == c);
        let d = digit_of(c);
        if !big {
            let next = acc * 10 + d;
            if next > limit {
                big = true;
            } else {
                acc = next;
            }
        } else {
            proof {
                lemma_digits_nonneg(p);
            }
        }
        assert(v@.subrange(start as int, i + 1) =~= v@.subrange(start as int, i as int).push(c));
        i = i + 1;
    }
    assert(body.subrange(0, n - start) =~= body);
    assert(all_digits(body)) by {
        assert(v@.subrange(start as int, n as int) =~= body);
    }
    if big {
        return None;
    }
    if neg {
        Some((-acc) as i64)
    } else if acc == limit {
        None
    } else {
        Some(acc as i64)
    }
}

} // verus!
