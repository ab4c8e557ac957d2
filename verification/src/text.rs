//! Character-level text rules: Unicode white space, trimming, splitting at
//! the first space and ASCII case-insensitive words.
use vstd::prelude::*;

verus! {

/// The characters with the Unicode `White_Space` property, which is what
/// `char::is_whitespace` and `str::trim` go by.
pub open spec fn is_white_space(c: char) -> bool {
    let u = c as u32;
    (0x09 <= u <= 0x0D) || u == 0x20 || u == 0x85 || u == 0xA0 || u == 0x1680 || (0x2000 <= u
        <= 0x200A) || u == 0x2028 || u == 0x2029 || u == 0x202F || u == 0x205F || u == 0x3000
}

/// `s` without its leading white space.
pub open spec fn trim_start(s: Seq<char>) -> Seq<char>
    decreases s.len(),
{
    if s.len() > 0 && is_white_space(s[0]) {
        trim_start(s.drop_first())
    } else {
        s
    }
}

/// `s` without its trailing white space.
pub open spec fn trim_end(s: Seq<char>) -> Seq<char>
    decreases s.len(),
{
    if s.len() > 0 && is_white_space(s.last()) {
        trim_end(s.drop_last())
    } else {
        s
    }
}

/// `s` without leading and trailing white space, as `str::trim` gives it.
pub open spec fn trim(s: Seq<char>) -> Seq<char> {
    trim_end(trim_start(s))
}

/// Where the first `' '` of `s` stands, if it has one.
pub open spec fn first_space(s: Seq<char>) -> Option<int> {
    if exists|k: int| is_first_space(s, k) {
        Some(choose|k: int| is_first_space(s, k))
    } else {
        None
    }
}

/// `k` is the position of the first `' '` in `s`.
pub open spec fn is_first_space(s: Seq<char>, k: int) -> bool {
    &&& 0 <= k < s.len()
    &&& s[k] == ' '
    &&& forall|j: int| 0 <= j < k ==> s[j] != ' '
}

/// `s` split at its first `' '` (which belongs to neither part), as
/// `splitn(2, ' ')` splits it; without a space, the second part is empty.
pub open spec fn split_first_space(s: Seq<char>) -> (Seq<char>, Seq<char>) {
    match first_space(s) {
        Some(k) => (s.subrange(0, k), s.subrange(k + 1, s.len() as int)),
        None => (s, Seq::empty()),
    }
}

/// The ASCII lower-case form of `c`; other characters are left as they are.
pub open spec fn ascii_lower(c: char) -> char {
    if 'A' <= c <= 'Z' {
        ((c as u32) + 32) as char
    } else {
        c
    }
}

/// `s` in ASCII lower case.
pub open spec fn lowercase(s: Seq<char>) -> Seq<char> {
    s.map_values(|c: char| ascii_lower(c))
}

/// Whether `c` is white space (Unicode `White_Space`).
pub fn is_whitespace(c: char) -> (b: bool)
    ensures
        b == is_white_space(c),
{
    let u = c as u32;
    (0x09 <= u && u <= 0x0D) || u == 0x20 || u == 0x85 || u == 0xA0 || u == 0x1680 || (0x2000
        <= u && u <= 0x200A) || u == 0x2028 || u == 0x2029 || u == 0x202F || u == 0x205F || u
        == 0x3000
}

/// The characters of `s`, in order.
pub fn chars_of(s: &str) -> (v: Vec<char>)
    ensures
        v@ == s@,
{
    let mut v: Vec<char> = Vec::new();
    for c in it: s.chars()
        invariant
            v@ == it.seq().take(it.index()),
            it.seq() == s@,
    {
        v.push(c);
    }
    v
}


/// Dropping leading white space never reaches past a non-space: skipping a
/// white-space prefix does not change what `trim_start` gives.
proof fn lemma_trim_start_skip(s: Seq<char>, i: int)
    requires
        0 <= i <= s.len(),
        forall|k: int| 0 <= k < i ==> is_white_space(#[trigger] s[k]),
    ensures
        trim_start(s) == trim_start(s.subrange(i, s.len() as int)),
    decreases i,
{
    if i == 0 {
        assert(s.subrange(0, s.len() as int) =~= s);
    } else {
        let t = s.drop_first();
        assert forall|k: int| 0 <= k < i - 1 implies is_white_space(#[trigger] t[k]) by {
            assert(t[k] == s[k + 1]);
        }
        lemma_trim_start_skip(t, i - 1);
        assert(t.subrange(i - 1, t.len() as int) =~= s.subrange(i, s.len() as int));
    }
}

/// Skipping a white-space suffix does not change what `trim_end` gives.
proof fn lemma_trim_end_skip(s: Seq<char>, j: int)
    requires
        0 <= j <= s.len(),
        forall|k: int| j <= k < s.len() ==> is_white_space(#[trigger] s[k]),
    ensures
        trim_end(s) == trim_end(s.subrange(0, j)),
    decreases s.len() - j,
{
    if j == s.len() {
        assert(s.subrange(0, j) =~= s);
    } else {
        let t = s.drop_last();
        assert(is_white_space(s[s.len() - 1]));
        lemma_trim_end_skip(t, j);
        assert(t.subrange(0, j) =~= s.subrange(0, j));
    }
}

/// The bounds of `cs[a..b]` without its leading and trailing white space.
pub fn trimmed_range(cs: &Vec<char>, a: usize, b: usize) -> (r: (usize, usize))
    requires
        a <= b <= cs@.len(),
    ensures
        a <= r.0 <= r.1 <= b,
        cs@.subrange(r.0 as int, r.1 as int) == trim(cs@.subrange(a as int, b as int)),
{
    let ghost sub = cs@.subrange(a as int, b as int);
    let mut i = a;
    while i < b && is_whitespace(cs[i])
        invariant
            a <= i <= b <= cs@.len(),
            forall|k: int| a <= k < i ==> is_white_space(#[trigger] cs@[k]),
        decreases b - i,
    {
        i = i + 1;
    }
    proof {
        assert forall|k: int| 0 <= k < i - a implies is_white_space(#[trigger] sub[k]) by {
            assert(sub[k] == cs@[a + k]);
        }
        lemma_trim_start_skip(sub, i - a);
        assert(sub.subrange(i - a, sub.len() as int) =~= cs@.subrange(i as int, b as int));
    }
    if i == b {
        proof {
            let e = cs@.subrange(i as int, b as int);
            assert(e.len() == 0);
            assert(trim_start(e) == e);
            assert(trim_end(e) == e);
            assert(cs@.subrange(b as int, b as int) =~= e);
        }
        return (b, b);
    }
    let ghost mid = cs@.subrange(i as int, b as int);
    assert(trim_start(mid) == mid);
    let mut j = b;
    while j > i && is_whitespace(cs[j - 1])
        invariant
            a <= i < b <= cs@.len(),
            i <= j <= b,
            !is_white_space(cs@[i as int]),
            forall|k: int| j <= k < b ==> is_white_space(#[trigger] cs@[k]),
        decreases j - i,
    {
        j = j - 1;
    }
    proof {
        assert forall|k: int| j - i <= k < mid.len() implies is_white_space(#[trigger] mid[k]) by {
            assert(mid[k] == cs@[i + k]);
        }
        lemma_trim_end_skip(mid, j - i);
        let inner = mid.subrange(0, j - i);
        assert(inner =~= cs@.subrange(i as int, j as int));
        assert(inner.last() == cs@[j - 1]);
        assert(trim_end(inner) == inner);
    }
    (i, j)
}

/// The end of `cs[a..b]` without its trailing white space.
pub fn trimmed_end(cs: &Vec<char>, a: usize, b: usize) -> (r: usize)
    requires
        a <= b <= cs@.len(),
    ensures
        a <= r <= b,
        cs@.subrange(a as int, r as int) == trim_end(cs@.subrange(a as int, b as int)),
{
    let ghost sub = cs@.subrange(a as int, b as int);
    let mut j = b;
    while j > a && is_whitespace(cs[j - 1])
        invariant
            a <= j <= b <= cs@.len(),
            forall|k: int| j <= k < b ==> is_white_space(#[trigger] cs@[k]),
        decreases j - a,
    {
        j = j - 1;
    }
    proof {
        assert forall|k: int| j - a <= k < sub.len() implies is_white_space(#[trigger] sub[k]) by {
            assert(sub[k] == cs@[a + k]);
        }
        lemma_trim_end_skip(sub, j - a);
        let inner = sub.subrange(0, j - a);
        assert(inner =~= cs@.subrange(a as int, j as int));
        if j > a {
            assert(inner.last() == cs@[j - 1]);
        }
        assert(trim_end(inner) == inner);
    }
    j
}

/// The position of the first `' '` in `cs[a..b]`, counted from `a`, if any.
pub fn find_space(cs: &Vec<char>, a: usize, b: usize) -> (r: Option<usize>)
    requires
        a <= b <= cs@.len(),
    ensures
        match r {
            Some(k) => a <= k < b && first_space(cs@.subrange(a as int, b as int)) == Some(
                k - a,
            ),
            None => first_space(cs@.subrange(a as int, b as int)) is None,
        },
{
    let ghost sub = cs@.subrange(a as int, b as int);
    let mut i = a;
    while i < b
        invariant
            a <= i <= b <= cs@.len(),
            forall|k: int| a <= k < i ==> cs@[k] != ' ',
            sub == cs@.subrange(a as int, b as int),
        decreases b - i,
    {
        if cs[i] == ' ' {
            proof {
                let k = i - a;
                assert forall|j: int| 0 <= j < k implies sub[j] != ' ' by {
                    assert(sub[j] == cs@[a + j]);
                }
                assert(is_first_space(sub, k));
                let c = choose|c: int| is_first_space(sub, c);
                assert(c == k) by {
                    if c < k {
                        assert(sub[c] == cs@[a + c]);
                    } else if c > k {
                        assert(sub[k] == ' ');
                    }
                }
            }
            return Some(i);
        }
        i = i + 1;
    }
    proof {
        assert forall|k: int| !is_first_space(sub, k) by {
            if 0 <= k < sub.len() {
                assert(sub[k] == cs@[a + k]);
            }
        }
    }
    None
}

/// Whether `cs[a..b]` is `word` (given in lower case) up to ASCII case.
pub fn is_word(cs: &Vec<char>, a: usize, b: usize, word: &[char]) -> (r: bool)
    requires
        a <= b <= cs@.len(),
    ensures
        r == (lowercase(cs@.subrange(a as int, b as int)) == word@),
{
    let ghost low = lowercase(cs@.subrange(a as int, b as int));
    if b - a != word.len() {
        assert(low.len() != word@.len());
        return false;
    }
    let mut i: usize = 0;
    while i < word.len()
        invariant
            a <= b <= cs@.len(),
            b - a == word@.len(),
            low == lowercase(cs@.subrange(a as int, b as int)),
            i <= word@.len(),
            forall|k: int| 0 <= k < i ==> low[k] == word@[k],
        decreases word@.len() - i,
    {
        let c = cs[a + i];
        let lower = if 'A' <= c && c <= 'Z' {
            ((c as u32) + 32) as u8 as char
        } else {
            c
        };
        assert(low[i as int] == ascii_lower(c));
        if lower != word[i] {
            assert(low[i as int] != word@[i as int]);
            return false;
        }
        i = i + 1;
    }
    assert(low =~= word@);
    true
}


/// `s` without leading and trailing white space, as a new string.
pub fn trim_str(s: &str) -> (r: String)
    ensures
        r@ == trim(s@),
{
    let cs = chars_of(s);
    assert(cs@.subrange(0, cs@.len() as int) =~= s@);
    let (a, b) = trimmed_range(&cs, 0, cs.len());
    s.substring_char(a, b).to_owned()
}

/// `s` without trailing white space, as a new string.
pub fn trim_end_str(s: &str) -> (r: String)
    ensures
        r@ == trim_end(s@),
{
    let cs = chars_of(s);
    assert(cs@.subrange(0, cs@.len() as int) =~= s@);
    let b = trimmed_end(&cs, 0, cs.len());
    s.substring_char(0, b).to_owned()
}


/// What `trim_start` leaves does not start with white space.
proof fn lemma_trim_start_front(s: Seq<char>)
    ensures
        trim_start(s).len() == 0 || !is_white_space(trim_start(s)[0]),
    decreases s.len(),
{
    if s.len() > 0 && is_white_space(s[0]) {
        lemma_trim_start_front(s.drop_first());
    }
}

/// What `trim_end` leaves is a prefix of its input that does not end with
/// white space.
pub proof fn lemma_trim_end_prefix(s: Seq<char>)
    ensures
        trim_end(s).len() <= s.len(),
        trim_end(s) == s.subrange(0, trim_end(s).len() as int),
        trim_end(s).len() == 0 || !is_white_space(trim_end(s).last()),
    decreases s.len(),
{
    if s.len() > 0 && is_white_space(s.last()) {
        lemma_trim_end_prefix(s.drop_last());
        let t = trim_end(s.drop_last());
        assert(s.drop_last().subrange(0, t.len() as int) =~= s.subrange(0, t.len() as int));
    } else {
        assert(s.subrange(0, s.len() as int) =~= s);
    }
}

/// Trimming twice is trimming once.
pub proof fn law_trim_idempotent(s: Seq<char>)
    ensures
        trim(trim(s)) == trim(s),
{
    let y = trim_start(s);
    let t = trim_end(y);
    lemma_trim_start_front(s);
    lemma_trim_end_prefix(y);
    if t.len() > 0 {
        assert(t[0] == y[0]);
        assert(trim_start(t) == t);
        assert(trim_end(t) == t);
    } else {
        assert(trim_start(t) == t);
        assert(trim_end(t) == t);
    }
}

/// A trimmed text neither starts nor ends with white space.
pub proof fn law_trim_edges(s: Seq<char>)
    ensures
        trim(s).len() == 0 || (!is_white_space(trim(s)[0]) && !is_white_space(trim(s).last())),
{
    let y = trim_start(s);
    lemma_trim_start_front(s);
    lemma_trim_end_prefix(y);
    if trim(s).len() > 0 {
        assert(trim(s)[0] == y[0]);
    }
}

} // verus!
