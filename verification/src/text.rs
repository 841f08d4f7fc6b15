//! Character-level helpers on strings, with their specifications.
//!
//! Strings are modelled by their views, sequences of `char`.  The functions
//! here state in spec terms what `str::trim`, `str::contains`, `str::lines`
//! and friends compute, and give verified executable versions of them.
use vstd::prelude::*;

verus! {

/// Appends one character to a string (`String::push`).  Trusted: the
/// string's characters gain `c` at the end, as std documents.
#[verifier::external_body]
pub(crate) fn string_push(s: &mut String, c: char)
    ensures
        final(s)@ == old(s)@.push(c),
{
    s.push(c)
}

/// The characters of `s`, in order.
pub fn chars_of(s: &str) -> (v: Vec<char>)
    ensures
        v@ == s@,
{
    let mut v: Vec<char> = Vec::new();
    for c in it: s.chars()
        invariant
            v@ == it.seq().take(it.index() as int),
    {
        v.push(c);
    }
    v
}

/// A string holding exactly the characters of `v`.
pub fn string_of(v: &[char]) -> (s: String)
    ensures
        s@ == v@,
{
    let mut s = String::new();
    let mut i: usize = 0;
    while i < v.len()
        invariant
            i <= v@.len(),
            s@ == v@.take(i as int),
        decreases v@.len() - i,
    {
        string_push(&mut s, v[i]);
        assert(v@.take(i + 1) == v@.take(i as int).push(v@[i as int]));
        i = i + 1;
    }
    assert(v@.take(v@.len() as int) == v@);
    s
}

/// Equality of two character sequences.
pub fn chars_eq(a: &[char], b: &[char]) -> (r: bool)
    ensures
        r == (a@ == b@),
{
    if a.len() != b.len() {
        return false;
    }
    let mut i: usize = 0;
    while i < a.len()
        invariant
            a@.len() == b@.len(),
            i <= a@.len(),
            forall|j: int| 0 <= j < i ==> a@[j] == b@[j],
        decreases a@.len() - i,
    {
        if a[i] != b[i] {
            return false;
        }
        i = i + 1;
    }
    assert(a@ =~= b@);
    true
}

/// Equality of two string slices.
pub fn str_eq(a: &str, b: &str) -> (r: bool)
    ensures
        r == (a@ == b@),
{
    let va = chars_of(a);
    let vb = chars_of(b);
    chars_eq(va.as_slice(), vb.as_slice())
}

/// Unicode `White_Space`, the property that `char::is_whitespace` tests.
pub open spec fn is_ws(c: char) -> bool {
    let u = c as u32;
    (0x09 <= u && u <= 0x0d) || u == 0x20 || u == 0x85 || u == 0xa0 || u == 0x1680 || (0x2000
        <= u && u <= 0x200a) || u == 0x2028 || u == 0x2029 || u == 0x202f || u == 0x205f || u
        == 0x3000
}

/// `char::is_whitespace`.
pub fn is_whitespace(c: char) -> (r: bool)
    ensures
        r == is_ws(c),
{
    let u = c as u32;
    (0x09 <= u && u <= 0x0d) || u == 0x20 || u == 0x85 || u == 0xa0 || u == 0x1680 || (0x2000
        <= u && u <= 0x200a) || u == 0x2028 || u == 0x2029 || u == 0x202f || u == 0x205f || u
        == 0x3000
}

/// `s` without its leading whitespace.
pub open spec fn trim_start(s: Seq<char>) -> Seq<char>
    decreases s.len(),
{
    if s.len() > 0 && is_ws(s[0]) {
        trim_start(s.drop_first())
    } else {
        s
    }
}

/// `s` without its trailing whitespace.
pub open spec fn trim_end(s: Seq<char>) -> Seq<char>
    decreases s.len(),
{
    if s.len() > 0 && is_ws(s.last()) {
        trim_end(s.drop_last())
    } else {
        s
    }
}

/// What `str::trim` gives back: `s` without leading and trailing whitespace.
pub open spec fn trim(s: Seq<char>) -> Seq<char> {
    trim_end(trim_start(s))
}

/// `trim_start(s)` drops exactly the first `n` characters when they are all
/// whitespace and the next one is not.
proof fn lemma_trim_start_at(s: Seq<char>, n: int)
    requires
        0 <= n <= s.len(),
        forall|j: int| 0 <= j < n ==> is_ws(#[trigger] s[j]),
        n == s.len() || !is_ws(s[n]),
    ensures
        trim_start(s) == s.subrange(n, s.len() as int),
    decreases n,
{
    if n > 0 {
        let t = s.drop_first();
        assert forall|j: int| 0 <= j < n - 1 implies is_ws(#[trigger] t[j]) by {
            assert(t[j] == s[j + 1]);
        }
        lemma_trim_start_at(t, n - 1);
        assert(t.subrange(n - 1, t.len() as int) =~= s.subrange(n, s.len() as int));
    } else {
        assert(s.subrange(0, s.len() as int) =~= s);
    }
}

/// `trim_end(s)` keeps exactly the first `n` characters when all later ones
/// are whitespace and the one before is not.
proof fn lemma_trim_end_at(s: Seq<char>, n: int)
    requires
        0 <= n <= s.len(),
        forall|j: int| n <= j < s.len() ==> is_ws(#[trigger] s[j]),
        n == 0 || !is_ws(s[n - 1]),
    ensures
        trim_end(s) == s.subrange(0, n),
    decreases s.len() - n,
{
    if n < s.len() {
        let t = s.drop_last();
        assert forall|j: int| n <= j < t.len() implies is_ws(#[trigger] t[j]) by {
            assert(t[j] == s[j]);
        }
        lemma_trim_end_at(t, n);
        assert(t.subrange(0, n) =~= s.subrange(0, n));
    } else {
        assert(s.subrange(0, n) =~= s);
    }
}

/// The bounds `(a, b)` of `trim(s)` inside `s`.
pub open spec fn trim_bounds(s: Seq<char>, a: int, b: int) -> bool {
    &&& 0 <= a <= b <= s.len()
    &&& forall|j: int| 0 <= j < a ==> is_ws(#[trigger] s[j])
    &&& forall|j: int| b <= j < s.len() ==> is_ws(#[trigger] s[j])
    &&& a < b ==> !is_ws(s[a]) && !is_ws(s[b - 1])
}

/// `trim` cuts `s` exactly at bounds that `trim_bounds` describes.
proof fn lemma_trim_bounds(s: Seq<char>, a: int, b: int)
    requires
        trim_bounds(s, a, b),
    ensures
        trim(s) == s.subrange(a, b),
{
    if a == b {
        // everything is whitespace
        if a < s.len() {
            assert(is_ws(s[a]));
        }
        assert forall|j: int| 0 <= j < s.len() implies is_ws(#[trigger] s[j]) by {
            if j >= a {
                assert(j >= b);
            }
        }
        lemma_trim_start_at(s, s.len() as int);
        assert(s.subrange(s.len() as int, s.len() as int) =~= Seq::<char>::empty());
        assert(trim_end(Seq::<char>::empty()) == Seq::<char>::empty());
        assert(s.subrange(a, b) =~= Seq::<char>::empty());
    } else {
        lemma_trim_start_at(s, a);
        let t = s.subrange(a, s.len() as int);
        assert forall|j: int| b - a <= j < t.len() implies is_ws(#[trigger] t[j]) by {
            assert(t[j] == s[j + a]);
        }
        assert(t[b - a - 1] == s[b - 1]);
        lemma_trim_end_at(t, b - a);
        assert(t.subrange(0, b - a) =~= s.subrange(a, b));
    }
}

/// The characters of `v` without leading and trailing whitespace
/// (`str::trim`).
pub fn trim_chars(v: &[char]) -> (r: Vec<char>)
    ensures
        r@ == trim(v@),
{
    let mut a: usize = 0;
    while a < v.len() && is_whitespace(v[a])
        invariant
            a <= v@.len(),
            forall|j: int| 0 <= j < a ==> is_ws(#[trigger] v@[j]),
        decreases v@.len() - a,
    {
        a = a + 1;
    }
    let mut b: usize = v.len();
    while b > a && is_whitespace(v[b - 1])
        invariant
            a <= b <= v@.len(),
            forall|j: int| b <= j < v@.len() ==> is_ws(#[trigger] v@[j]),
        decreases b,
    {
        b = b - 1;
    }
    proof {
        lemma_trim_bounds(v@, a as int, b as int);
    }
    let mut r: Vec<char> = Vec::new();
    let mut i: usize = a;
    while i < b
        invariant
            a <= i <= b <= v@.len(),
            r@ == v@.subrange(a as int, i as int),
        decreases b - i,
    {
        r.push(v[i]);
        assert(v@.subrange(a as int, i + 1) == v@.subrange(a as int, i as int).push(v@[i as int]));
        i = i + 1;
    }
    r
}

/// `str::trim` into an owned string.
pub fn trim_str(s: &str) -> (r: String)
    ensures
        r@ == trim(s@),
{
    let v = chars_of(s);
    let t = trim_chars(v.as_slice());
    string_of(t.as_slice())
}

/// `needle` occurs in `hay` starting at index `i`.
pub open spec fn occurs_at(hay: Seq<char>, needle: Seq<char>, i: int) -> bool {
    0 <= i && i + needle.len() <= hay.len() && hay.subrange(i, i + needle.len()) == needle
}

/// `needle` occurs somewhere in `hay` (`str::contains` with a string pattern).
pub open spec fn contains_seq(hay: Seq<char>, needle: Seq<char>) -> bool {
    exists|i: int| occurs_at(hay, needle, i)
}

/// Whether `needle` occurs at index `i` of `hay`.
fn matches_at(hay: &[char], needle: &[char], i: usize) -> (r: bool)
    requires
        i + needle@.len() <= hay@.len(),
    ensures
        r == occurs_at(hay@, needle@, i as int),
{
    let mut k: usize = 0;
    while k < needle.len()
        invariant
            i + needle@.len() <= hay@.len(),
            k <= needle@.len(),
            forall|j: int| 0 <= j < k ==> hay@[i + j] == needle@[j],
        decreases needle@.len() - k,
    {
        assert(i + k < hay.len());
        if hay[i + k] != needle[k] {
            assert(hay@.subrange(i as int, i + needle@.len())[k as int] != needle@[k as int]);
            return false;
        }
        k = k + 1;
    }
    assert(hay@.subrange(i as int, i + needle@.len()) =~= needle@);
    true
}

/// Whether `needle` occurs in `hay` (`str::contains`).
pub fn contains_chars(hay: &[char], needle: &[char]) -> (r: bool)
    ensures
        r == contains_seq(hay@, needle@),
{
    if needle.len() > hay.len() {
        return false;
    }
    if needle.len() == 0 {
        assert(hay@.subrange(0, 0) =~= needle@);
        assert(occurs_at(hay@, needle@, 0));
        return true;
    }
    let n = hay.len();
    let last = n - needle.len();
    let mut i: usize = 0;
    while i <= last
        invariant
            n == hay@.len(),
            needle@.len() >= 1,
            last + needle@.len() == n,
            i <= last + 1,
            forall|j: int| 0 <= j < i ==> !occurs_at(hay@, needle@, j),
        decreases last + 1 - i,
    {
        if matches_at(hay, needle, i) {
            return true;
        }
        i = i + 1;
    }
    assert forall|j: int| !occurs_at(hay@, needle@, j) by {
        if 0 <= j && j + needle@.len() <= hay@.len() {
            assert(j < i);
        }
    }
    false
}

/// The pieces of `s` between separators, where `is_sep` tells which
/// characters separate (`str::split` with a character predicate).  There is
/// always at least one piece.
pub open spec fn split_by(s: Seq<char>, is_sep: spec_fn(char) -> bool) -> Seq<Seq<char>>
    decreases s.len(),
{
    if s.len() == 0 {
        seq![Seq::<char>::empty()]
    } else {
        let rest = split_by(s.drop_last(), is_sep);
        if is_sep(s.last()) {
            rest.push(Seq::<char>::empty())
        } else {
            rest.update(rest.len() - 1, rest.last().push(s.last()))
        }
    }
}

/// The piece separator of `str::lines`.
pub open spec fn newline_sep() -> spec_fn(char) -> bool {
    |c: char| c == '\n'
}

/// The lines of `s` as `str::lines` cuts them, except that a `'\r'` before a
/// `'\n'` stays at the end of its line: pieces between `'\n'`, without the
/// empty piece after a final `'\n'`, and none at all for an empty string.
pub open spec fn lines_of(s: Seq<char>) -> Seq<Seq<char>> {
    let pieces = split_by(s, newline_sep());
    if s.len() == 0 {
        Seq::empty()
    } else if s.last() == '\n' {
        pieces.drop_last()
    } else {
        pieces
    }
}

/// One step of `split_by`: the pieces of a prefix one character longer.
pub proof fn lemma_split_by_step(s: Seq<char>, i: int, is_sep: spec_fn(char) -> bool)
    requires
        0 <= i < s.len(),
    ensures
        split_by(s.take(i + 1), is_sep) == ({
            let rest = split_by(s.take(i), is_sep);
            if is_sep(s[i]) {
                rest.push(Seq::<char>::empty())
            } else {
                rest.update(rest.len() - 1, rest.last().push(s[i]))
            }
        }),
{
    assert(s.take(i + 1).drop_last() =~= s.take(i));
    assert(s.take(i + 1).last() == s[i]);
}

/// The lines of `v` (see `lines_of`).
pub fn split_lines(v: &[char]) -> (r: Vec<Vec<char>>)
    ensures
        r.deep_view() == lines_of(v@),
{
    let ghost sep = newline_sep();
    let mut done: Vec<Vec<char>> = Vec::new();
    let mut cur: Vec<char> = Vec::new();
    let mut i: usize = 0;
    assert(v@.take(0) =~= Seq::<char>::empty());
    assert(done.deep_view().push(cur@) =~= seq![Seq::<char>::empty()]);
    while i < v.len()
        invariant
            i <= v@.len(),
            sep == newline_sep(),
            split_by(v@.take(i as int), sep) =~~= done.deep_view().push(cur@),
        decreases v@.len() - i,
    {
        proof {
            lemma_split_by_step(v@, i as int, sep);
        }
        if v[i] == '\n' {
            let ghost before = done.deep_view();
            let piece = cur;
            let ghost pv = piece@;
            done.push(piece);
            cur = Vec::new();
            assert(done.deep_view() =~~= before.push(pv));
        } else {
            cur.push(v[i]);
        }
        i = i + 1;
    }
    assert(v@.take(v@.len() as int) =~= v@);
    if v.len() == 0 {
        return Vec::new();
    }
    if v[v.len() - 1] == '\n' {
        assert(cur@.len() == 0) by {
            assert(sep(v@.last()));
            assert(split_by(v@, sep).last() == Seq::<char>::empty());
            assert(done.deep_view().push(cur@).last() == cur@);
        }
        assert(done.deep_view() =~~= done.deep_view().push(cur@).drop_last());
        done
    } else {
        let ghost before = done.deep_view();
        done.push(cur);
        assert(done.deep_view() =~~= before.push(cur@));
        done
    }
}

proof fn lemma_trim_start_keeps(s: Seq<char>, m: Seq<char>, i: int)
    requires
        m.len() > 0,
        !is_ws(m[0]),
        occurs_at(s, m, i),
    ensures
        contains_seq(trim_start(s), m),
    decreases s.len(),
{
    if s.len() > 0 && is_ws(s[0]) {
        assert(s.subrange(i, i + m.len())[0] == s[i]);
        assert(i > 0);
        let t = s.drop_first();
        assert(t.subrange(i - 1, i - 1 + m.len()) =~= s.subrange(i, i + m.len()));
        lemma_trim_start_keeps(t, m, i - 1);
    } else {
        assert(occurs_at(trim_start(s), m, i));
    }
}

proof fn lemma_trim_end_keeps(s: Seq<char>, m: Seq<char>, i: int)
    requires
        m.len() > 0,
        !is_ws(m.last()),
        occurs_at(s, m, i),
    ensures
        contains_seq(trim_end(s), m),
    decreases s.len(),
{
    if s.len() > 0 && is_ws(s.last()) {
        assert(s.subrange(i, i + m.len())[m.len() - 1] == s[i + m.len() - 1]);
        assert(i + m.len() < s.len());
        let t = s.drop_last();
        assert(t.subrange(i, i + m.len()) =~= s.subrange(i, i + m.len()));
        lemma_trim_end_keeps(t, m, i);
    } else {
        assert(occurs_at(trim_end(s), m, i));
    }
}

/// Trimming keeps every occurrence of a pattern that starts and ends with a
/// non-whitespace character.
pub proof fn lemma_trim_keeps_occurrence(s: Seq<char>, m: Seq<char>)
    requires
        m.len() > 0,
        !is_ws(m[0]),
        !is_ws(m.last()),
        contains_seq(s, m),
    ensures
        contains_seq(trim(s), m),
{
    let i = choose|i: int| occurs_at(s, m, i);
    lemma_trim_start_keeps(s, m, i);
    let j = choose|j: int| occurs_at(trim_start(s), m, j);
    lemma_trim_end_keeps(trim_start(s), m, j);
}

/// `a` followed by `b`, as a new string.
pub fn concat_str(a: &str, b: &str) -> (r: String)
    ensures
        r@ == a@ + b@,
{
    let mut v = chars_of(a);
    let w = chars_of(b);
    let mut i: usize = 0;
    while i < w.len()
        invariant
            i <= w@.len(),
            v@ == a@ + w@.take(i as int),
        decreases w@.len() - i,
    {
        v.push(w[i]);
        assert(w@.take(i + 1) =~= w@.take(i as int).push(w@[i as int]));
        i = i + 1;
    }
    assert(w@.take(w@.len() as int) =~= w@);
    string_of(v.as_slice())
}

/// The decimal digits of `n`, without leading zeros (`"0"` for zero), as
/// `usize`'s `Display` writes them.
pub open spec fn decimal(n: nat) -> Seq<char>
    decreases n,
{
    if n < 10 {
        seq![('0' as u32 + n) as char]
    } else {
        decimal(n / 10).push(('0' as u32 + n % 10) as char)
    }
}

/// `n` written in decimal (`n.to_string()`).
pub fn decimal_string(n: usize) -> (r: String)
    ensures
        r@ == decimal(n as nat),
    decreases n,
{
    let d = (n % 10) as u8;
    let c = (48u8 + d) as char;
    assert(c == ('0' as u32 + n % 10) as char);
    if n < 10 {
        let mut s = String::new();
        string_push(&mut s, c);
        assert(s@ =~= seq![c]);
        s
    } else {
        let mut s = decimal_string(n / 10);
        string_push(&mut s, c);
        s
    }
}

} // verus!
