//! Character-sequence helpers shared by the library: Unicode whitespace,
//! trimming, ASCII case folding and substring search.

use vstd::prelude::*;

verus! {

/// Unicode `White_Space` property (what `char::is_whitespace` tests).
pub open spec fn is_ws(c: char) -> bool {
    let u = c as u32;
    ||| 0x09 <= u <= 0x0D
    ||| u == 0x20
    ||| u == 0x85
    ||| u == 0xA0
    ||| u == 0x1680
    ||| 0x2000 <= u <= 0x200A
    ||| u == 0x2028
    ||| u == 0x2029
    ||| u == 0x202F
    ||| u == 0x205F
    ||| u == 0x3000
}

/// `s` without its trailing whitespace.
pub open spec fn trim_end(s: Seq<char>) -> Seq<char>
    decreases s.len(),
{
    if s.len() > 0 && is_ws(s.last()) {
        trim_end(s.drop_last())
    } else {
        s
    }
}

/// `s` without its leading whitespace.
pub open spec fn trim_start(s: Seq<char>) -> Seq<char>
    decreases s.len(),
{
    if s.len() > 0 && is_ws(s[0]) {
        trim_start(s.drop_first())
    } else {
        s
    }
}

/// `s` without leading and trailing whitespace.
pub open spec fn trim(s: Seq<char>) -> Seq<char> {
    trim_start(trim_end(s))
}

/// ASCII lower-casing of one character (non-ASCII is unchanged).
pub open spec fn ascii_lower(c: char) -> char {
    if 'A' <= c <= 'Z' {
        ((c as u32) + 32) as char
    } else {
        c
    }
}

/// ASCII lower-casing of a sequence.
pub open spec fn ascii_lower_seq(s: Seq<char>) -> Seq<char> {
    Seq::new(s.len(), |i: int| ascii_lower(s[i]))
}

/// `needle` occurs in `hay` at position `i`.
pub open spec fn occurs_at(hay: Seq<char>, needle: Seq<char>, i: int) -> bool {
    0 <= i && i + needle.len() <= hay.len() && hay.subrange(i, i + needle.len()) == needle
}

/// `needle` occurs somewhere in `hay`.
pub open spec fn contains_seq(hay: Seq<char>, needle: Seq<char>) -> bool {
    exists|i: int| occurs_at(hay, needle, i)
}

/// `char::is_whitespace`.
pub fn is_whitespace(c: char) -> (b: bool)
    ensures
        b == is_ws(c),
{
    let u = c as u32;
    (0x09 <= u && u <= 0x0D) || u == 0x20 || u == 0x85 || u == 0xA0 || u == 0x1680 || (0x2000
        <= u && u <= 0x200A) || u == 0x2028 || u == 0x2029 || u == 0x202F || u == 0x205F || u
        == 0x3000
}

/// ASCII lower-casing of one character.
pub fn to_ascii_lower(c: char) -> (r: char)
    ensures
        r == ascii_lower(c),
{
    if 'A' <= c && c <= 'Z' {
        let u = (c as u32) + 32;
        assert(0x61 <= u <= 0x7a);
        char_from_ascii(u as u8)
    } else {
        c
    }
}

/// The character whose code is the ASCII byte `b`.
pub fn char_from_ascii(b: u8) -> (c: char)
    requires
        b < 128,
    ensures
        c as u32 == b as u32,
{
    b as char
}

/// Length of `s` once trailing whitespace is removed.
pub fn trim_end_len(s: &[char]) -> (n: usize)
    ensures
        n <= s@.len(),
        s@.take(n as int) == trim_end(s@),
{
    let mut n = s.len();
    proof {
        assert(s@.take(n as int) == s@);
    }
    while n > 0 && is_whitespace(s[n - 1])
        invariant
            n <= s@.len(),
            trim_end(s@.take(n as int)) == trim_end(s@),
        decreases n,
    {
        proof {
            assert(s@.take(n as int).drop_last() == s@.take(n - 1));
        }
        n = n - 1;
    }
    n
}

/// Number of leading whitespace characters of `s`.
pub fn trim_start_len(s: &[char]) -> (k: usize)
    ensures
        k <= s@.len(),
        s@.skip(k as int) == trim_start(s@),
{
    let mut k: usize = 0;
    proof {
        assert(s@.skip(0) == s@);
    }
    while k < s.len() && is_whitespace(s[k])
        invariant
            k <= s@.len(),
            trim_start(s@.skip(k as int)) == trim_start(s@),
        decreases s@.len() - k,
    {
        proof {
            assert(s@.skip(k as int).drop_first() == s@.skip(k + 1));
        }
        k = k + 1;
    }
    k
}

/// Copy of `s[from..to]`.
pub fn slice_chars(s: &[char], from: usize, to: usize) -> (r: Vec<char>)
    requires
        from <= to <= s@.len(),
    ensures
        r@ == s@.subrange(from as int, to as int),
{
    let mut r: Vec<char> = Vec::new();
    let mut i = from;
    while i < to
        invariant
            from <= i <= to <= s@.len(),
            r@ == s@.subrange(from as int, i as int),
        decreases to - i,
    {
        r.push(s[i]);
        proof {
            assert(s@.subrange(from as int, i + 1) == s@.subrange(from as int, i as int).push(s@[i as int]));
        }
        i = i + 1;
    }
    r
}

/// `trim_end` of a character vector.
pub fn trim_end_chars(s: &[char]) -> (r: Vec<char>)
    ensures
        r@ == trim_end(s@),
{
    let n = trim_end_len(s);
    let r = slice_chars(s, 0, n);
    proof {
        assert(s@.subrange(0, n as int) == s@.take(n as int));
    }
    r
}

/// `trim` of a character vector.
pub fn trim_chars(s: &[char]) -> (r: Vec<char>)
    ensures
        r@ == trim(s@),
{
    let e = trim_end_chars(s);
    let k = trim_start_len(e.as_slice());
    let r = slice_chars(e.as_slice(), k, e.len());
    proof {
        assert(e@.subrange(k as int, e@.len() as int) == e@.skip(k as int));
    }
    r
}

/// The characters of a string slice.
pub fn chars_of(s: &str) -> (v: Vec<char>)
    ensures
        v@ == s@,
{
    let mut v: Vec<char> = Vec::new();
    for c in it: s.chars()
        invariant
            v@ == it.seq().take(it.index() as int),
    {
        v.push(c);
    }
    v
}

/// An owned copy of a string slice.
pub fn owned(s: &str) -> (r: String)
    ensures
        r@ == s@,
{
    broadcast use vstd::string::group_string_axioms;

    s.to_string()
}

/// The characters of an optional string.
pub open spec fn opt_chars(o: Option<String>) -> Option<Seq<char>> {
    match o {
        Some(s) => Some(s@),
        None => None,
    }
}

/// A copy of an optional string.
pub fn clone_opt_string(o: &Option<String>) -> (r: Option<String>)
    ensures
        opt_chars(r) == opt_chars(*o),
{
    match o {
        Some(s) => Some(s.clone()),
        None => None,
    }
}

/// Decimal digits of `n`.
pub open spec fn decimal_chars(n: nat) -> Seq<char>
    decreases n,
{
    if n < 10 {
        seq![(48 + n) as char]
    } else {
        decimal_chars(n / 10).push((48 + n % 10) as char)
    }
}

/// Append the decimal digits of `n`.
pub fn push_decimal_chars(out: &mut Vec<char>, n: u64)
    ensures
        final(out)@ == old(out)@ + decimal_chars(n as nat),
    decreases n,
{
    if n < 10 {
        out.push(char_from_ascii((48 + n) as u8));
        proof {
            assert(final(out)@ =~= old(out)@ + decimal_chars(n as nat));
        }
    } else {
        push_decimal_chars(out, n / 10);
        out.push(char_from_ascii((48 + n % 10) as u8));
        proof {
            assert(final(out)@ =~= old(out)@ + decimal_chars(n as nat));
        }
    }
}

/// `s` without trailing occurrences of `ch`.
pub open spec fn trim_end_char(s: Seq<char>, ch: char) -> Seq<char>
    decreases s.len(),
{
    if s.len() > 0 && s.last() == ch {
        trim_end_char(s.drop_last(), ch)
    } else {
        s
    }
}

/// `str::trim_end_matches(ch)`.
pub fn trim_end_char_exec(s: &[char], ch: char) -> (r: Vec<char>)
    ensures
        r@ == trim_end_char(s@, ch),
{
    let mut n = s.len();
    proof {
        assert(s@.take(n as int) == s@);
    }
    while n > 0 && s[n - 1] == ch
        invariant
            n <= s@.len(),
            trim_end_char(s@.take(n as int), ch) == trim_end_char(s@, ch),
        decreases n,
    {
        proof {
            assert(s@.take(n as int).drop_last() == s@.take(n - 1));
        }
        n = n - 1;
    }
    let r = slice_chars(s, 0, n);
    proof {
        assert(s@.subrange(0, n as int) == s@.take(n as int));
    }
    r
}

/// `String::push`.
#[verifier::external_body]
pub(crate) fn push_char(s: &mut String, c: char)
    ensures
        final(s)@ == old(s)@.push(c),
{
    s.push(c);
}

/// A string holding exactly the characters of `v`.
pub fn string_of(v: &[char]) -> (s: String)
    ensures
        s@ == v@,
{
    let mut s = String::new();
    let mut i: usize = 0;
    while i < v.len()
        invariant
            i <= v@.len(),
            s@ == v@.take(i as int),
        decreases v@.len() - i,
    {
        push_char(&mut s, v[i]);
        proof {
            assert(v@.take(i + 1) == v@.take(i as int).push(v@[i as int]));
        }
        i = i + 1;
    }
    proof {
        assert(v@.take(v@.len() as int) == v@);
    }
    s
}

/// Whether `needle` occurs in `hay` at position `i`.
pub fn occurs_at_exec(hay: &[char], needle: &[char], i: usize) -> (b: bool)
    ensures
        b == occurs_at(hay@, needle@, i as int),
{
    if i > hay.len() || needle.len() > hay.len() - i {
        return false;
    }
    let hl = hay.len();
    let mut j: usize = 0;
    while j < needle.len()
        invariant
            hl == hay@.len(),
            i + needle@.len() <= hay@.len(),
            j <= needle@.len(),
            forall|k: int| 0 <= k < j ==> hay@[i + k] == needle@[k],
        decreases needle@.len() - j,
    {
        if hay[i + j] != needle[j] {
            proof {
                assert(hay@.subrange(i as int, i + needle@.len())[j as int] != needle@[j as int]);
            }
            return false;
        }
        j = j + 1;
    }
    proof {
        assert(hay@.subrange(i as int, i + needle@.len()) =~= needle@);
    }
    true
}

/// First position at or after `from` where `needle` occurs in `hay`.
pub fn find_from(hay: &[char], needle: &[char], from: usize) -> (r: Option<usize>)
    ensures
        match r {
            Some(p) => from <= p && occurs_at(hay@, needle@, p as int) && forall|q: int|
                from <= q < p ==> !occurs_at(hay@, needle@, q),
            None => forall|q: int| from <= q ==> !occurs_at(hay@, needle@, q),
        },
{
    let n = hay.len();
    if from > n {
        return None;
    }
    let mut p = from;
    loop
        invariant
            n == hay@.len(),
            from <= p <= n,
            forall|q: int| from <= q < p ==> !occurs_at(hay@, needle@, q),
        decreases n - p,
    {
        if occurs_at_exec(hay, needle, p) {
            return Some(p);
        }
        if p == n {
            return None;
        }
        p = p + 1;
    }
}

/// Whether `needle` occurs anywhere in `hay`.
pub fn contains_chars(hay: &[char], needle: &[char]) -> (b: bool)
    ensures
        b == contains_seq(hay@, needle@),
{
    match find_from(hay, needle, 0) {
        Some(p) => true,
        None => {
            proof {
                assert forall|i: int| !occurs_at(hay@, needle@, i) by {
                    if i < 0 {
                    }
                }
            }
            false
        },
    }
}

/// ASCII lower-casing of a character vector.
pub fn lower_chars(s: &[char]) -> (r: Vec<char>)
    ensures
        r@ == ascii_lower_seq(s@),
{
    let mut r: Vec<char> = Vec::new();
    let mut i: usize = 0;
    while i < s.len()
        invariant
            i <= s@.len(),
            r@ == ascii_lower_seq(s@).take(i as int),
        decreases s@.len() - i,
    {
        r.push(to_ascii_lower(s[i]));
        proof {
            assert(ascii_lower_seq(s@).take(i + 1) =~= ascii_lower_seq(s@).take(i as int).push(
                ascii_lower(s@[i as int]),
            ));
        }
        i = i + 1;
    }
    proof {
        assert(ascii_lower_seq(s@).take(s@.len() as int) =~= ascii_lower_seq(s@));
    }
    r
}

/// Trimming never brings in a character that was not there.
pub proof fn lemma_trim_keeps_absent(s: Seq<char>, c: char)
    requires
        !s.contains(c),
    ensures
        !trim(s).contains(c),
{
    lemma_trim_end_keeps_absent(s, c);
    lemma_trim_start_keeps_absent(trim_end(s), c);
}

proof fn lemma_trim_end_keeps_absent(s: Seq<char>, c: char)
    requires
        !s.contains(c),
    ensures
        !trim_end(s).contains(c),
    decreases s.len(),
{
    if s.len() > 0 && is_ws(s.last()) {
        assert forall|j: int| 0 <= j < s.drop_last().len() implies s.drop_last()[j] != c by {
            assert(s.drop_last()[j] == s[j]);
        }
        lemma_trim_end_keeps_absent(s.drop_last(), c);
    }
}

proof fn lemma_trim_start_keeps_absent(s: Seq<char>, c: char)
    requires
        !s.contains(c),
    ensures
        !trim_start(s).contains(c),
    decreases s.len(),
{
    if s.len() > 0 && is_ws(s[0]) {
        assert forall|j: int| 0 <= j < s.drop_first().len() implies s.drop_first()[j] != c by {
            assert(s.drop_first()[j] == s[j + 1]);
        }
        lemma_trim_start_keeps_absent(s.drop_first(), c);
    }
}

} // verus!
