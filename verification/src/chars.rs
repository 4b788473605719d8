//! Character-sequence utilities shared by the format identifier and the
//! compatibility descriptor: ASCII lowercasing, substring search, trimming,
//! and the conversions between `str`/`String` and `Vec<char>`.
use vstd::prelude::*;

verus! {

/// ASCII lowercasing of a single character; other characters are unchanged.
pub open spec fn lower_char(c: char) -> char {
    if 'A' <= c && c <= 'Z' {
        (((c as u8) + 32) as char)
    } else {
        c
    }
}

/// ASCII lowercasing of a character sequence.
pub open spec fn lower_seq(s: Seq<char>) -> Seq<char> {
    s.map_values(|c: char| lower_char(c))
}

/// `n` occurs in `h` starting at position `i`.
pub open spec fn has_at(h: Seq<char>, n: Seq<char>, i: int) -> bool {
    0 <= i && i + n.len() <= h.len() && h.subrange(i, i + n.len() as int) == n
}

/// `n` occurs somewhere in `h`.
pub open spec fn contains_seq(h: Seq<char>, n: Seq<char>) -> bool {
    exists|i: int| has_at(h, n, i)
}

/// `s` ends with the suffix `suf`.
pub open spec fn ends_with(s: Seq<char>, suf: Seq<char>) -> bool {
    suf.len() <= s.len() && s.subrange(s.len() - suf.len(), s.len() as int) == suf
}

/// Index of the last occurrence of `c` in `s`, or -1 if `c` does not occur.
pub open spec fn last_occurrence(s: Seq<char>, c: char) -> int
    decreases s.len(),
{
    if s.len() == 0 {
        -1
    } else if s[s.len() - 1] == c {
        s.len() - 1
    } else {
        last_occurrence(s.take(s.len() - 1), c)
    }
}

pub proof fn lemma_last_occurrence(s: Seq<char>, c: char)
    ensures
        -1 <= last_occurrence(s, c) < s.len(),
        last_occurrence(s, c) >= 0 ==> s[last_occurrence(s, c)] == c,
        forall|j: int| last_occurrence(s, c) < j < s.len() ==> s[j] != c,
    decreases s.len(),
{
    if s.len() == 0 {
    } else if s[s.len() - 1] == c {
    } else {
        lemma_last_occurrence(s.take(s.len() - 1), c);
        assert forall|j: int| last_occurrence(s, c) < j < s.len() implies s[j] != c by {
            if j < s.len() - 1 {
                assert(s.take(s.len() - 1)[j] == s[j]);
            }
        }
    }
}

/// The views of a sequence of strings.
pub open spec fn seq_views(v: Seq<String>) -> Seq<Seq<char>> {
    v.map_values(|s: String| s@)
}

/// The part of a path after its last `/` (the whole path if there is none).
pub open spec fn file_part(s: Seq<char>) -> Seq<char> {
    s.subrange(last_occurrence(s, '/') + 1, s.len() as int)
}

/// The dot-separated tokens of `s`, in order; a string without a dot is a
/// single token, so the result is never empty.
pub open spec fn dot_tokens(s: Seq<char>) -> Seq<Seq<char>>
    decreases s.len(),
    via dot_tokens_dec
{
    let i = last_occurrence(s, '.');
    if i < 0 {
        seq![s]
    } else {
        dot_tokens(s.subrange(0, i)).push(s.subrange(i + 1, s.len() as int))
    }
}

#[via_fn]
proof fn dot_tokens_dec(s: Seq<char>) {
    lemma_last_occurrence(s, '.');
}

/// The extension chain of a filename, path or URL: the dot-separated
/// tokens after the stem of its final path segment.
pub open spec fn ext_chain(s: Seq<char>) -> Seq<Seq<char>> {
    dot_tokens(file_part(s)).drop_first()
}

/// Whitespace characters recognized by the trimming helpers.
pub open spec fn is_space(c: char) -> bool {
    c == ' ' || c == '\t' || c == '\n' || c == '\r'
}

/// `s` with leading whitespace removed.
pub open spec fn trim_start(s: Seq<char>) -> Seq<char>
    decreases s.len(),
{
    if s.len() > 0 && is_space(s[0]) {
        trim_start(s.drop_first())
    } else {
        s
    }
}

/// `s` with trailing whitespace removed.
pub open spec fn trim_end(s: Seq<char>) -> Seq<char>
    decreases s.len(),
{
    if s.len() > 0 && is_space(s.last()) {
        trim_end(s.drop_last())
    } else {
        s
    }
}

/// `s` with leading and trailing whitespace removed.
pub open spec fn trim_seq(s: Seq<char>) -> Seq<char> {
    trim_end(trim_start(s))
}

proof fn lemma_trim_start_skip(s: Seq<char>, a: int)
    requires
        0 <= a <= s.len(),
        forall|j: int| 0 <= j < a ==> is_space(s[j]),
    ensures
        trim_start(s) == trim_start(s.skip(a)),
    decreases a,
{
    if a > 0 {
        assert(trim_start(s) == trim_start(s.drop_first()));
        assert(s.drop_first().skip(a - 1) =~= s.skip(a));
        lemma_trim_start_skip(s.drop_first(), a - 1);
    } else {
        assert(s.skip(0) =~= s);
    }
}

proof fn lemma_trim_end_take(s: Seq<char>, b: int)
    requires
        0 <= b <= s.len(),
        forall|j: int| b <= j < s.len() ==> is_space(s[j]),
    ensures
        trim_end(s) == trim_end(s.take(b)),
    decreases s.len(),
{
    if s.len() > b {
        assert(is_space(s.last()));
        assert(trim_end(s) == trim_end(s.drop_last()));
        assert(s.drop_last().take(b) =~= s.take(b));
        lemma_trim_end_take(s.drop_last(), b);
    } else {
        assert(s.take(b) =~= s);
    }
}

/// Exec form of ASCII lowercasing for one character.
pub fn to_lower_char(c: char) -> (r: char)
    ensures
        r == lower_char(c),
{
    if 'A' <= c && c <= 'Z' {
        ((c as u8) + 32) as char
    } else {
        c
    }
}

/// Exec form of ASCII lowercasing for a character vector.
pub fn to_lower(v: &Vec<char>) -> (r: Vec<char>)
    ensures
        r@ == lower_seq(v@),
{
    let mut out: Vec<char> = Vec::new();
    let mut i: usize = 0;
    while i < v.len()
        invariant
            i <= v.len(),
            out@ =~= lower_seq(v@.take(i as int)),
        decreases v.len() - i,
    {
        out.push(to_lower_char(v[i]));
        i += 1;
        assert(v@.take(i as int) =~= v@.take(i - 1).push(v@[i - 1]));
    }
    assert(v@.take(v@.len() as int) =~= v@);
    out
}

/// Exec equality test on character vectors.
pub fn eq_chars(a: &Vec<char>, b: &Vec<char>) -> (r: bool)
    ensures
        r == (a@ == b@),
{
    if a.len() != b.len() {
        return false;
    }
    let mut i: usize = 0;
    while i < a.len()
        invariant
            i <= a.len(),
            a@.len() == b@.len(),
            forall|j: int| 0 <= j < i ==> a@[j] == b@[j],
        decreases a.len() - i,
    {
        if a[i] != b[i] {
            return false;
        }
        i += 1;
    }
    assert(a@ =~= b@);
    true
}

/// Exec substring search: does `n` occur anywhere in `h`?
pub fn contains_chars(h: &Vec<char>, n: &Vec<char>) -> (r: bool)
    ensures
        r == contains_seq(h@, n@),
{
    if n.len() > h.len() {
        assert(forall|i: int| !has_at(h@, n@, i));
        return false;
    }
    if n.len() == 0 {
        assert(h@.subrange(0, 0) =~= n@);
        assert(has_at(h@, n@, 0));
        return true;
    }
    let mut i: usize = 0;
    while i <= h.len() - n.len()
        invariant
            1 <= n@.len() <= h@.len(),
            i <= h@.len() - n@.len() + 1,
            forall|k: int| 0 <= k < i ==> !has_at(h@, n@, k),
        decreases h.len() - i,
    {
        let mut j: usize = 0;
        let mut ok = true;
        while ok && j < n.len()
            invariant
                1 <= n@.len(),
                h@.len() <= usize::MAX,
                i + n@.len() <= h@.len(),
                j <= n@.len(),
                ok ==> forall|l: int| 0 <= l < j ==> h@[i + l] == n@[l],
                !ok ==> !has_at(h@, n@, i as int),
            decreases (if ok { 1int } else { 0int }), n.len() - j,
        {
            if h[i + j] != n[j] {
                proof {
                    if has_at(h@, n@, i as int) {
                        assert(h@.subrange(i as int, i + n@.len() as int)[j as int] == h@[i + j]);
                    }
                }
                ok = false;
            } else {
                j += 1;
            }
        }
        if ok {
            assert(h@.subrange(i as int, i + n@.len() as int) =~= n@);
            assert(has_at(h@, n@, i as int));
            return true;
        }
        i += 1;
    }
    assert(forall|k: int| !has_at(h@, n@, k));
    false
}

/// Exec index of the last occurrence of `c` in `v`, or -1 encoded as `None`.
pub fn find_last(v: &Vec<char>, c: char) -> (r: Option<usize>)
    ensures
        match r {
            Some(i) => i as int == last_occurrence(v@, c),
            None => last_occurrence(v@, c) == -1,
        },
{
    let mut j: usize = v.len();
    proof {
        assert(v@.take(v@.len() as int) =~= v@);
    }
    while j > 0
        invariant
            j <= v.len(),
            last_occurrence(v@, c) == last_occurrence(v@.take(j as int), c),
        decreases j,
    {
        if v[j - 1] == c {
            proof {
                lemma_last_occurrence(v@.take(j as int), c);
                assert(v@.take(j as int)[j - 1] == c);
            }
            return Some(j - 1);
        }
        proof {
            assert(v@.take(j as int).take(j - 1) =~= v@.take(j - 1));
        }
        j -= 1;
    }
    assert(v@.take(0) =~= Seq::<char>::empty());
    None
}

/// Exec trimming of leading and trailing whitespace.
pub fn trim_chars(v: &Vec<char>) -> (r: Vec<char>)
    ensures
        r@ == trim_seq(v@),
{
    let mut a: usize = 0;
    while a < v.len() && is_space_char(v[a])
        invariant
            a <= v.len(),
            forall|j: int| 0 <= j < a ==> is_space(v@[j]),
        decreases v.len() - a,
    {
        a += 1;
    }
    proof {
        lemma_trim_start_skip(v@, a as int);
        if a < v.len() {
            assert(trim_start(v@.skip(a as int)) == v@.skip(a as int));
        } else {
            assert(v@.skip(a as int) =~= Seq::<char>::empty());
        }
    }
    let ghost mid = v@.skip(a as int);
    let mut b: usize = v.len();
    while b > a && is_space_char(v[b - 1])
        invariant
            a <= b <= v.len(),
            forall|j: int| b <= j < v.len() ==> is_space(v@[j]),
        decreases b,
    {
        b -= 1;
    }
    proof {
        assert(forall|j: int| b - a <= j < mid.len() ==> is_space(mid[j]));
        lemma_trim_end_take(mid, b - a);
        if b > a {
            assert(mid.take(b - a).last() == v@[b - 1]);
            assert(trim_end(mid.take(b - a)) == mid.take(b - a));
        } else {
            assert(mid.take(b - a) =~= Seq::<char>::empty());
        }
    }
    let mut out: Vec<char> = Vec::new();
    let mut i: usize = a;
    while i < b
        invariant
            a <= i <= b <= v.len(),
            out@ =~= v@.subrange(a as int, i as int),
        decreases b - i,
    {
        out.push(v[i]);
        i += 1;
    }
    proof {
        assert(out@ =~= mid.take(b - a));
    }
    out
}

/// Exec form of the whitespace test.
pub fn is_space_char(c: char) -> (r: bool)
    ensures
        r == is_space(c),
{
    c == ' ' || c == '\t' || c == '\n' || c == '\r'
}

/// Relies on `str::chars`: the iterator yields exactly the characters that
/// form the string's view, in order.
#[verifier::external_body]
pub fn str_chars(s: &str) -> (r: Vec<char>)
    ensures
        r@ == s@,
{
    s.chars().collect()
}

/// Relies on `String` implementing `FromIterator<char>`: collecting
/// characters builds the string consisting of exactly those characters.
#[verifier::external_body]
pub fn chars_string(v: &Vec<char>) -> (r: String)
    ensures
        r@ == v@,
{
    v.iter().collect()
}

/// The text that lossy UTF-8 decoding yields for the given bytes; it is a
/// function of the bytes alone.
pub uninterp spec fn lossy_text(b: Seq<u8>) -> Seq<char>;

/// Relies on `String::from_utf8_lossy`: the decoded text depends on the
/// input bytes alone.
#[verifier::external_body]
pub fn utf8_lossy(b: &Vec<u8>) -> (r: String)
    ensures
        r@ == lossy_text(b@),
{
    String::from_utf8_lossy(b).into_owned()
}

} // verus!
