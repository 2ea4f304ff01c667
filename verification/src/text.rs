//! Character-level text operations the license pipeline is built on:
//! trimming, equality, substring search, delimiter splitting and joining.
//! Each executable function is specified against a spec-level model on
//! `Seq<char>`.

use vstd::prelude::*;

verus! {

/// The whitespace characters that trimming removes.
pub open spec fn is_ws(c: char) -> bool {
    c == ' ' || c == '\t' || c == '\n' || c == '\r' || c == '\u{b}' || c == '\u{c}'
}

/// Executable whitespace test.
pub fn is_ws_char(c: char) -> (b: bool)
    ensures
        b == is_ws(c),
{
    c == ' ' || c == '\t' || c == '\n' || c == '\r' || c == '\u{b}' || c == '\u{c}'
}

pub open spec fn trim_start_spec(s: Seq<char>) -> Seq<char>
    decreases s.len(),
{
    if s.len() > 0 && is_ws(s[0]) {
        trim_start_spec(s.subrange(1, s.len() as int))
    } else {
        s
    }
}

pub open spec fn trim_end_spec(s: Seq<char>) -> Seq<char>
    decreases s.len(),
{
    if s.len() > 0 && is_ws(s[s.len() - 1]) {
        trim_end_spec(s.subrange(0, s.len() - 1))
    } else {
        s
    }
}

/// What trimming a string means: whitespace stripped from both ends.
pub open spec fn trim_spec(s: Seq<char>) -> Seq<char> {
    trim_end_spec(trim_start_spec(s))
}

pub proof fn lemma_trim_start_at(s: Seq<char>, a: int)
    requires
        0 <= a <= s.len(),
        forall|j: int| 0 <= j < a ==> is_ws(s[j]),
        a == s.len() || !is_ws(s[a]),
    ensures
        trim_start_spec(s) == s.subrange(a, s.len() as int),
    decreases a,
{
    if a == 0 {
        assert(s =~= s.subrange(0, s.len() as int));
    } else {
        let s1 = s.subrange(1, s.len() as int);
        lemma_trim_start_at(s1, a - 1);
        assert(s1.subrange(a - 1, s1.len() as int) =~= s.subrange(a, s.len() as int));
    }
}

pub proof fn lemma_trim_end_at(s: Seq<char>, b: int)
    requires
        0 <= b <= s.len(),
        forall|j: int| b <= j < s.len() ==> is_ws(s[j]),
        b == 0 || !is_ws(s[b - 1]),
    ensures
        trim_end_spec(s) == s.subrange(0, b),
    decreases s.len(),
{
    if b == s.len() {
        assert(s =~= s.subrange(0, b));
    } else {
        let s1 = s.subrange(0, s.len() - 1);
        lemma_trim_end_at(s1, b);
        assert(s1.subrange(0, b) =~= s.subrange(0, b));
    }
}

/// A string already free of leading and trailing whitespace trims to itself.
pub proof fn lemma_trim_noop(s: Seq<char>)
    requires
        s.len() > 0,
        !is_ws(s[0]),
        !is_ws(s[s.len() - 1]),
    ensures
        trim_spec(s) == s,
{
    lemma_trim_start_at(s, 0);
    assert(s.subrange(0, s.len() as int) =~= s);
    lemma_trim_end_at(s, s.len() as int);
}

/// Strip whitespace from both ends.
pub fn trim(s: &str) -> (r: &str)
    ensures
        r@ == trim_spec(s@),
{
    let n = s.unicode_len();
    let mut a: usize = 0;
    while a < n && is_ws_char(s.get_char(a))
        invariant
            0 <= a <= n,
            n == s@.len(),
            forall|j: int| 0 <= j < a ==> is_ws(s@[j]),
        decreases n - a,
    {
        a = a + 1;
    }
    let mut b: usize = n;
    while b > a && is_ws_char(s.get_char(b - 1))
        invariant
            a <= b <= n,
            n == s@.len(),
            forall|j: int| b <= j < n ==> is_ws(s@[j]),
        decreases b,
    {
        b = b - 1;
    }
    let r = s.substring_char(a, b);
    proof {
        lemma_trim_start_at(s@, a as int);
        let t = s@.subrange(a as int, s@.len() as int);
        lemma_trim_end_at(t, b - a);
        assert(t.subrange(0, b - a) =~= s@.subrange(a as int, b as int));
    }
    r
}

/// Character-for-character string equality, specified over the views.
pub fn str_eq(a: &str, b: &str) -> (r: bool)
    ensures
        r == (a@ == b@),
{
    let n = a.unicode_len();
    if n != b.unicode_len() {
        return false;
    }
    let mut i: usize = 0;
    while i < n
        invariant
            0 <= i <= n,
            n == a@.len(),
            n == b@.len(),
            forall|j: int| 0 <= j < i ==> a@[j] == b@[j],
        decreases n - i,
    {
        if a.get_char(i) != b.get_char(i) {
            return false;
        }
        i = i + 1;
    }
    proof {
        assert(a@ =~= b@);
    }
    true
}

/// Whether the character occurs in the string.
pub fn contains_char(s: &str, c: char) -> (r: bool)
    ensures
        r == s@.contains(c),
{
    let n = s.unicode_len();
    let mut i: usize = 0;
    while i < n
        invariant
            0 <= i <= n,
            n == s@.len(),
            forall|j: int| 0 <= j < i ==> s@[j] != c,
        decreases n - i,
    {
        if s.get_char(i) == c {
            proof {
                assert(s@[i as int] == c);
            }
            return true;
        }
        i = i + 1;
    }
    proof {
        if s@.contains(c) {
            let w = choose|j: int| 0 <= j < s@.len() && s@[j] == c;
            assert(false);
        }
    }
    false
}

/// `sub` occurs as a contiguous substring of `s`.
pub open spec fn has_sub(s: Seq<char>, sub: Seq<char>) -> bool {
    exists|i: int| 0 <= i && i + sub.len() <= s.len() && #[trigger] s.subrange(i, i + sub.len())
        == sub
}

fn matches_at(s: &str, sub: &str, i: usize) -> (r: bool)
    requires
        i + sub@.len() <= s@.len(),
        s@.len() <= usize::MAX as int,
    ensures
        r == (s@.subrange(i as int, i + sub@.len()) == sub@),
{
    let m = sub.unicode_len();
    let mut j: usize = 0;
    while j < m
        invariant
            0 <= j <= m,
            m == sub@.len(),
            i + m <= s@.len(),
            s@.len() <= usize::MAX as int,
            forall|l: int| 0 <= l < j ==> s@[i + l] == sub@[l],
        decreases m - j,
    {
        if s.get_char(i + j) != sub.get_char(j) {
            proof {
                assert(s@.subrange(i as int, i + sub@.len())[j as int] != sub@[j as int]);
            }
            return false;
        }
        j = j + 1;
    }
    proof {
        assert(s@.subrange(i as int, i + sub@.len()) =~= sub@);
    }
    true
}

/// Substring search, specified against `has_sub`.
pub fn contains_sub(s: &str, sub: &str) -> (r: bool)
    ensures
        r == has_sub(s@, sub@),
{
    let n = s.unicode_len();
    let m = sub.unicode_len();
    if m == 0 {
        proof {
            let z: int = 0;
            assert(s@.subrange(z, z + sub@.len()) =~= sub@);
            assert(0 <= z && z + sub@.len() <= s@.len() && s@.subrange(z, z + sub@.len()) == sub@);
        }
        return true;
    }
    if m > n {
        proof {
            if has_sub(s@, sub@) {
                let w = choose|i: int|
                    0 <= i && i + sub@.len() <= s@.len() && #[trigger] s@.subrange(
                        i,
                        i + sub@.len(),
                    ) == sub@;
                assert(false);
            }
        }
        return false;
    }
    let mut i: usize = 0;
    while i <= n - m
        invariant
            0 <= i <= n - m + 1,
            1 <= m <= n,
            n == s@.len(),
            m == sub@.len(),
            forall|k: int| 0 <= k < i ==> #[trigger] s@.subrange(k, k + m as int) != sub@,
        decreases n - m - i + 1,
    {
        if matches_at(s, sub, i) {
            proof {
                assert(0 <= i as int && i as int + sub@.len() <= s@.len() && s@.subrange(
                    i as int,
                    i as int + sub@.len(),
                ) == sub@);
            }
            return true;
        }
        i = i + 1;
    }
    proof {
        if has_sub(s@, sub@) {
            let w = choose|k: int|
                0 <= k && k + sub@.len() <= s@.len() && #[trigger] s@.subrange(k, k + sub@.len())
                    == sub@;
            assert(s@.subrange(w, w + m as int) != sub@);
            assert(false);
        }
    }
    false
}

/// The views of a sequence of strings.
pub open spec fn seq_views(v: Seq<String>) -> Seq<Seq<char>> {
    v.map_values(|x: String| x@)
}

/// The delimiter classes the pipeline splits on.
#[derive(Clone, Copy)]
pub enum Delim {
    Newline,
    Semicolon,
    Expr,
}

pub open spec fn is_delim(d: Delim, c: char) -> bool {
    match d {
        Delim::Newline => c == '\n',
        Delim::Semicolon => c == ';',
        Delim::Expr => c == ' ' || c == '(' || c == ')',
    }
}

pub fn delim_char(d: Delim, c: char) -> (b: bool)
    ensures
        b == is_delim(d, c),
{
    match d {
        Delim::Newline => c == '\n',
        Delim::Semicolon => c == ';',
        Delim::Expr => c == ' ' || c == '(' || c == ')',
    }
}

/// Index of the first delimiter character, or the length if there is none.
pub open spec fn find_idx(s: Seq<char>, d: Delim) -> int
    decreases s.len(),
{
    if s.len() == 0 {
        0
    } else if is_delim(d, s[0]) {
        0
    } else {
        1 + find_idx(s.subrange(1, s.len() as int), d)
    }
}

pub proof fn lemma_find_idx_at(s: Seq<char>, d: Delim, i: int)
    requires
        0 <= i <= s.len(),
        forall|j: int| 0 <= j < i ==> !is_delim(d, s[j]),
        i == s.len() || is_delim(d, s[i]),
    ensures
        find_idx(s, d) == i,
    decreases i,
{
    if i == 0 {
    } else {
        let s1 = s.subrange(1, s.len() as int);
        lemma_find_idx_at(s1, d, i - 1);
    }
}

/// Splitting on a delimiter class, keeping empty pieces, as `str::split` does.
pub open spec fn split_delim(s: Seq<char>, d: Delim) -> Seq<Seq<char>>
    decreases s.len(),
{
    let i = find_idx(s, d);
    if 0 <= i && i < s.len() {
        seq![s.subrange(0, i)] + split_delim(s.subrange(i + 1, s.len() as int), d)
    } else {
        seq![s]
    }
}

/// Split on every character of the delimiter class, keeping empty pieces.
pub fn split_on(s: &str, d: Delim) -> (r: Vec<String>)
    ensures
        seq_views(r@) == split_delim(s@, d),
    decreases s@.len(),
{
    let n = s.unicode_len();
    let mut i: usize = 0;
    while i < n && !delim_char(d, s.get_char(i))
        invariant
            0 <= i <= n,
            n == s@.len(),
            forall|j: int| 0 <= j < i ==> !is_delim(d, s@[j]),
        decreases n - i,
    {
        i = i + 1;
    }
    proof {
        lemma_find_idx_at(s@, d, i as int);
    }
    if i == n {
        let mut v: Vec<String> = Vec::new();
        v.push(s.to_owned());
        proof {
            assert(seq_views(v@) =~= split_delim(s@, d));
        }
        v
    } else {
        let head = s.substring_char(0, i).to_owned();
        let tail = s.substring_char(i + 1, n);
        let mut rest = split_on(tail, d);
        let mut v: Vec<String> = Vec::new();
        v.push(head);
        v.append(&mut rest);
        proof {
            assert(seq_views(v@) =~= seq![s@.subrange(0, i as int)] + split_delim(tail@, d));
        }
        v
    }
}

/// Splitting undoes joining: pieces free of the delimiter class, joined with
/// one delimiter character, split back into exactly those pieces.
pub proof fn lemma_split_join(parts: Seq<Seq<char>>, d: Delim, c: char)
    requires
        parts.len() > 0,
        is_delim(d, c),
        forall|i: int, j: int|
            0 <= i < parts.len() && 0 <= j < parts[i].len() ==> !is_delim(
                d,
                #[trigger] parts[i][j],
            ),
    ensures
        split_delim(join_with(parts, seq![c]), d) == parts,
    decreases parts.len(),
{
    let sepc = seq![c];
    if parts.len() == 1 {
        let s = parts[0];
        assert(join_with(parts, sepc) == s);
        assert forall|j: int| 0 <= j < s.len() implies !is_delim(d, s[j]) by {
            assert(parts[0][j] == s[j]);
        }
        lemma_find_idx_at(s, d, s.len() as int);
        assert(seq![s] =~= parts);
    } else {
        let s0 = parts[0];
        let rest = parts.subrange(1, parts.len() as int);
        let jr = join_with(rest, sepc);
        let s = join_with(parts, sepc);
        assert(s == s0 + sepc + jr);
        assert forall|j: int| 0 <= j < s0.len() implies !is_delim(d, s[j]) by {
            assert(s[j] == s0[j]);
            assert(parts[0][j] == s0[j]);
        }
        assert(s[s0.len() as int] == c);
        lemma_find_idx_at(s, d, s0.len() as int);
        assert(s.subrange(0, s0.len() as int) =~= s0);
        assert(s.subrange(s0.len() as int + 1, s.len() as int) =~= jr);
        assert forall|i: int, j: int|
            0 <= i < rest.len() && 0 <= j < rest[i].len() implies !is_delim(
                d,
                rest[i][j],
            ) by {
            assert(rest[i] == parts[i + 1]);
            assert(parts[i + 1][j] == rest[i][j]);
        }
        lemma_split_join(rest, d, c);
        assert(split_delim(s, d) == seq![s0] + split_delim(jr, d));
        assert(seq![s0] + rest =~= parts);
    }
}

/// Joining pieces with a separator.
pub open spec fn join_with(parts: Seq<Seq<char>>, sep: Seq<char>) -> Seq<char>
    decreases parts.len(),
{
    if parts.len() == 0 {
        Seq::empty()
    } else if parts.len() == 1 {
        parts[0]
    } else {
        parts[0] + sep + join_with(parts.subrange(1, parts.len() as int), sep)
    }
}

pub proof fn lemma_join_push(parts: Seq<Seq<char>>, sep: Seq<char>, p: Seq<char>)
    ensures
        join_with(parts.push(p), sep) == if parts.len() == 0 {
            p
        } else {
            join_with(parts, sep) + sep + p
        },
    decreases parts.len(),
{
    if parts.len() == 0 {
        assert(parts.push(p)[0] == p);
    } else if parts.len() == 1 {
        assert(parts.push(p).subrange(1, 2) =~= seq![p]);
        assert(join_with(seq![p], sep) == p);
        assert(parts.push(p)[0] == parts[0]);
    } else {
        let rest = parts.subrange(1, parts.len() as int);
        lemma_join_push(rest, sep, p);
        assert(parts.push(p).subrange(1, parts.len() as int + 1) =~= rest.push(p));
        assert(parts.push(p)[0] == parts[0]);
        assert(parts[0] + sep + (join_with(rest, sep) + sep + p) =~= (parts[0] + sep + join_with(
            rest,
            sep,
        )) + sep + p);
    }
}

/// Join the strings with a separator.
pub fn join_strings(parts: &Vec<String>, sep: &str) -> (r: String)
    ensures
        r@ == join_with(seq_views(parts@), sep@),
{
    let mut out = String::new();
    let mut i: usize = 0;
    while i < parts.len()
        invariant
            0 <= i <= parts@.len(),
            i == 0 ==> out@ == Seq::<char>::empty(),
            i > 0 ==> out@ == join_with(seq_views(parts@).subrange(0, i as int), sep@),
        decreases parts@.len() - i,
    {
        if i > 0 {
            out.append(sep);
        }
        out.append(parts[i].as_str());
        proof {
            let vs = seq_views(parts@);
            lemma_join_push(vs.subrange(0, i as int), sep@, vs[i as int]);
            assert(vs.subrange(0, i as int).push(vs[i as int]) =~= vs.subrange(0, i + 1));
        }
        i = i + 1;
    }
    proof {
        if parts@.len() == 0 {
            assert(join_with(seq_views(parts@), sep@) =~= Seq::<char>::empty());
        } else {
            assert(seq_views(parts@).subrange(0, parts@.len() as int) =~= seq_views(parts@));
        }
    }
    out
}

} // verus!
