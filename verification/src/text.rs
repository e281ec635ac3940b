//! Character-level text utilities used by the vault rules and the `.env` format.
//!
//! Text is modelled by its sequence of Unicode scalar values (`Seq<char>`),
//! which is the view Verus gives to `str` and `String`.

use vstd::prelude::*;

verus! {

/// `String::push` appends one character.
pub assume_specification[ String::push ](s: &mut String, ch: char)
    ensures
        final(s)@ == old(s)@.push(ch),
;

/// The Unicode `White_Space` property, which is what `char::is_whitespace`
/// and `str::trim` test.
pub open spec fn is_ws(c: char) -> bool {
    ||| ('\u{9}' <= c && c <= '\u{d}')
    ||| c == ' '
    ||| c == '\u{85}'
    ||| c == '\u{a0}'
    ||| c == '\u{1680}'
    ||| ('\u{2000}' <= c && c <= '\u{200a}')
    ||| c == '\u{2028}'
    ||| c == '\u{2029}'
    ||| c == '\u{202f}'
    ||| c == '\u{205f}'
    ||| c == '\u{3000}'
}

/// `s` with its leading white space removed.
pub open spec fn trim_start(s: Seq<char>) -> Seq<char>
    decreases s.len(),
{
    if s.len() > 0 && is_ws(s[0]) {
        trim_start(s.drop_first())
    } else {
        s
    }
}

/// `s` with its trailing white space removed.
pub open spec fn trim_end(s: Seq<char>) -> Seq<char>
    decreases s.len(),
{
    if s.len() > 0 && is_ws(s.last()) {
        trim_end(s.drop_last())
    } else {
        s
    }
}

/// `s` with white space removed at both ends, as `str::trim` does.
pub open spec fn trim(s: Seq<char>) -> Seq<char> {
    trim_end(trim_start(s))
}

/// Every character of `s` is white space (so `trim(s)` is empty).
pub open spec fn is_blank(s: Seq<char>) -> bool {
    forall|i: int| 0 <= i < s.len() ==> is_ws(#[trigger] s[i])
}

/// The first index at which `c` occurs in `s`, if any.
pub open spec fn first_index_of(s: Seq<char>, c: char) -> Option<int>
    decreases s.len(),
{
    if s.len() == 0 {
        None
    } else if s[0] == c {
        Some(0)
    } else {
        match first_index_of(s.drop_first(), c) {
            Some(i) => Some(i + 1),
            None => None,
        }
    }
}

/// `s` with each occurrence of the two characters `a`, `b` (taken left to right,
/// without overlap) replaced by the single character `r`, as `str::replace` does.
pub open spec fn replace_pair(s: Seq<char>, a: char, b: char, r: char) -> Seq<char>
    decreases s.len(),
{
    if s.len() < 2 {
        s
    } else if s[0] == a && s[1] == b {
        seq![r] + replace_pair(s.skip(2), a, b, r)
    } else {
        seq![s[0]] + replace_pair(s.drop_first(), a, b, r)
    }
}

/// The decimal digits of `n`, most significant first.
pub open spec fn decimal(n: nat) -> Seq<char>
    decreases n,
{
    if n < 10 {
        seq![((n + 48) as u8) as char]
    } else {
        decimal(n / 10).push((((n % 10) + 48) as u8) as char)
    }
}

/// What `first_index_of` finds.
pub proof fn lemma_first_index_of(s: Seq<char>, c: char)
    ensures
        match first_index_of(s, c) {
            Some(i) => 0 <= i < s.len() && s[i] == c && forall|j: int| 0 <= j < i ==> s[j] != c,
            None => !s.contains(c),
        },
    decreases s.len(),
{
    if s.len() > 0 {
        lemma_first_index_of(s.drop_first(), c);
        if s[0] != c {
            match first_index_of(s.drop_first(), c) {
                Some(i) => {
                    assert forall|j: int| 0 <= j < i + 1 implies s[j] != c by {
                        if j > 0 {
                            assert(s[j] == s.drop_first()[j - 1]);
                        }
                    }
                },
                None => {
                    if s.contains(c) {
                        let j = choose|j: int| 0 <= j < s.len() && s[j] == c;
                        assert(s.drop_first()[j - 1] == c);
                    }
                },
            }
        }
    } else {
        assert(!s.contains(c));
    }
}

/// The first index in `s[lo..hi]` at which `c` occurs, counted from the start of `s`.
pub fn find_in_range(s: &Vec<char>, c: char, lo: usize, hi: usize) -> (r: Option<usize>)
    requires
        lo <= hi <= s.len(),
    ensures
        match r {
            Some(i) => lo <= i < hi && first_index_of(s@.subrange(lo as int, hi as int), c) == Some(i - lo),
            None => first_index_of(s@.subrange(lo as int, hi as int), c) is None,
        },
{
    proof {
        lemma_first_index_of(s@.subrange(lo as int, hi as int), c);
    }
    let mut i = lo;
    while i < hi
        invariant
            lo <= i <= hi <= s.len(),
            forall|j: int| lo <= j < i ==> s@[j] != c,
        decreases hi - i,
    {
        if s[i] == c {
            proof {
                let t = s@.subrange(lo as int, hi as int);
                lemma_first_index_of(t, c);
                assert(t[i - lo] == c);
                match first_index_of(t, c) {
                    Some(k) => {
                        if k < i - lo {
                            assert(s@[lo + k] == c);
                        }
                        if k > i - lo {
                            assert(t[i - lo] != c);
                        }
                    },
                    None => {
                        assert(t.contains(c));
                    },
                }
            }
            return Some(i);
        }
        i = i + 1;
    }
    proof {
        let t = s@.subrange(lo as int, hi as int);
        lemma_first_index_of(t, c);
        if let Some(k) = first_index_of(t, c) {
            assert(s@[lo + k] == c);
        }
    }
    None
}

/// Whether `c` is white space.
pub fn is_whitespace_char(c: char) -> (b: bool)
    ensures
        b == is_ws(c),
{
    ('\u{9}' <= c && c <= '\u{d}') || c == ' ' || c == '\u{85}' || c == '\u{a0}' || c == '\u{1680}'
        || ('\u{2000}' <= c && c <= '\u{200a}') || c == '\u{2028}' || c == '\u{2029}' || c
        == '\u{202f}' || c == '\u{205f}' || c == '\u{3000}'
}

/// The characters of `s`, in order.
pub fn chars_of(s: &str) -> (v: Vec<char>)
    ensures
        v@ == s@,
{
    let mut v: Vec<char> = Vec::new();
    for c in it: s.chars()
        invariant
            v@ == it.seq().take(it.index()),
            it.seq() == s@,
    {
        v.push(c);
    }
    v
}

/// Whether every character of `s` is white space.
pub fn is_blank_str(s: &str) -> (b: bool)
    ensures
        b == is_blank(s@),
{
    let v = chars_of(s);
    let mut i: usize = 0;
    while i < v.len()
        invariant
            v@ == s@,
            i <= v.len(),
            forall|j: int| 0 <= j < i ==> is_ws(#[trigger] v@[j]),
        decreases v.len() - i,
    {
        if !is_whitespace_char(v[i]) {
            return false;
        }
        i = i + 1;
    }
    true
}

/// `trim_start` of a range starts one later when the range starts with white space.
pub proof fn lemma_trim_start_step(s: Seq<char>, lo: int, hi: int)
    requires
        0 <= lo < hi <= s.len(),
    ensures
        is_ws(s[lo]) ==> trim_start(s.subrange(lo, hi)) == trim_start(s.subrange(lo + 1, hi)),
        !is_ws(s[lo]) ==> trim_start(s.subrange(lo, hi)) == s.subrange(lo, hi),
{
    assert(s.subrange(lo, hi).drop_first() =~= s.subrange(lo + 1, hi));
}

/// `trim_end` of a range ends one earlier when the range ends with white space.
pub proof fn lemma_trim_end_step(s: Seq<char>, lo: int, hi: int)
    requires
        0 <= lo < hi <= s.len(),
    ensures
        is_ws(s[hi - 1]) ==> trim_end(s.subrange(lo, hi)) == trim_end(s.subrange(lo, hi - 1)),
        !is_ws(s[hi - 1]) ==> trim_end(s.subrange(lo, hi)) == s.subrange(lo, hi),
{
    assert(s.subrange(lo, hi).drop_last() =~= s.subrange(lo, hi - 1));
}

/// The bounds of the trimmed part of `s[lo..hi]`.
pub fn trim_range(s: &Vec<char>, lo: usize, hi: usize) -> (r: (usize, usize))
    requires
        lo <= hi <= s.len(),
    ensures
        lo <= r.0 <= r.1 <= hi,
        s@.subrange(r.0 as int, r.1 as int) == trim(s@.subrange(lo as int, hi as int)),
{
    let mut a = lo;
    while a < hi && is_whitespace_char(s[a])
        invariant
            lo <= a <= hi <= s.len(),
            trim_start(s@.subrange(lo as int, hi as int)) == trim_start(
                s@.subrange(a as int, hi as int),
            ),
        decreases hi - a,
    {
        proof {
            lemma_trim_start_step(s@, a as int, hi as int);
        }
        a = a + 1;
    }
    proof {
        if a < hi {
            lemma_trim_start_step(s@, a as int, hi as int);
        } else {
            assert(s@.subrange(a as int, hi as int).len() == 0);
        }
    }
    let mut b = hi;
    while b > a && is_whitespace_char(s[b - 1])
        invariant
            lo <= a <= b <= hi <= s.len(),
            trim_end(s@.subrange(a as int, hi as int)) == trim_end(s@.subrange(a as int, b as int)),
        decreases b - a,
    {
        proof {
            lemma_trim_end_step(s@, a as int, b as int);
        }
        b = b - 1;
    }
    proof {
        if b > a {
            lemma_trim_end_step(s@, a as int, b as int);
        } else {
            assert(s@.subrange(a as int, b as int).len() == 0);
        }
    }
    (a, b)
}

/// The end of `s[lo..hi]` once trailing white space is removed.
pub fn trim_end_range(s: &Vec<char>, lo: usize, hi: usize) -> (b: usize)
    requires
        lo <= hi <= s.len(),
    ensures
        lo <= b <= hi,
        s@.subrange(lo as int, b as int) == trim_end(s@.subrange(lo as int, hi as int)),
{
    let mut b = hi;
    while b > lo && is_whitespace_char(s[b - 1])
        invariant
            lo <= b <= hi <= s.len(),
            trim_end(s@.subrange(lo as int, hi as int)) == trim_end(s@.subrange(lo as int, b as int)),
        decreases b - lo,
    {
        proof {
            lemma_trim_end_step(s@, lo as int, b as int);
        }
        b = b - 1;
    }
    proof {
        if b > lo {
            lemma_trim_end_step(s@, lo as int, b as int);
        } else {
            assert(s@.subrange(lo as int, b as int).len() == 0);
        }
    }
    b
}

/// `s` with each occurrence of `a` followed by `b` replaced by `r`, left to right.
pub fn replace_pair_chars(s: &Vec<char>, a: char, b: char, r: char) -> (out: Vec<char>)
    ensures
        out@ == replace_pair(s@, a, b, r),
{
    let mut out: Vec<char> = Vec::new();
    let mut i: usize = 0;
    proof {
        assert(s@.skip(0) =~= s@);
        assert(out@ + replace_pair(s@, a, b, r) =~= replace_pair(s@, a, b, r));
    }
    while i < s.len()
        invariant
            i <= s.len(),
            out@ + replace_pair(s@.skip(i as int), a, b, r) == replace_pair(s@, a, b, r),
        decreases s.len() - i,
    {
        let ghost rest = s@.skip(i as int);
        if i + 1 < s.len() && s[i] == a && s[i + 1] == b {
            out.push(r);
            proof {
                assert(rest[0] == a && rest[1] == b);
                assert(rest.skip(2) =~= s@.skip(i + 2));
            }
            i = i + 2;
        } else {
            out.push(s[i]);
            proof {
                if rest.len() >= 2 {
                    assert(rest.drop_first() =~= s@.skip(i + 1));
                    assert(!(rest[0] == a && rest[1] == b));
                } else {
                    assert(rest.len() == 1);
                    assert(s@.skip(i + 1).len() == 0);
                    assert(rest =~= seq![s@[i as int]]);
                    assert(replace_pair(s@.skip(i + 1), a, b, r) =~= Seq::<char>::empty());
                }
                assert(rest[0] == s@[i as int]);
            }
            i = i + 1;
        }
    }
    proof {
        assert(s@.skip(s@.len() as int).len() == 0);
        assert(out@ + Seq::<char>::empty() =~= out@);
    }
    out
}

/// The text `s[lo..hi]` as a `String`.
pub fn string_of_range(s: &Vec<char>, lo: usize, hi: usize) -> (r: String)
    requires
        lo <= hi <= s.len(),
    ensures
        r@ == s@.subrange(lo as int, hi as int),
{
    let mut r = String::new();
    let mut i = lo;
    while i < hi
        invariant
            lo <= i <= hi <= s.len(),
            r@ == s@.subrange(lo as int, i as int),
        decreases hi - i,
    {
        r.push(s[i]);
        proof {
            assert(s@.subrange(lo as int, i + 1) =~= s@.subrange(lo as int, i as int).push(
                s@[i as int],
            ));
        }
        i = i + 1;
    }
    r
}

/// A `String` holding the characters of `s`.
pub fn string_of_chars(s: &Vec<char>) -> (r: String)
    ensures
        r@ == s@,
{
    let r = string_of_range(s, 0, s.len());
    proof {
        assert(s@.subrange(0, s@.len() as int) =~= s@);
    }
    r
}

/// Appends the text of `t` to `s`.
pub fn push_str(s: &mut String, t: &str)
    ensures
        final(s)@ == old(s)@ + t@,
{
    let v = chars_of(t);
    let ghost s0 = s@;
    let mut i: usize = 0;
    while i < v.len()
        invariant
            v@ == t@,
            i <= v.len(),
            s@ == s0 + v@.subrange(0, i as int),
        decreases v.len() - i,
    {
        s.push(v[i]);
        proof {
            assert(v@.subrange(0, i + 1) =~= v@.subrange(0, i as int).push(v@[i as int]));
        }
        i = i + 1;
    }
    proof {
        assert(v@.subrange(0, v@.len() as int) =~= v@);
    }
}

/// Appends the decimal digits of `n` to `s`.
pub fn push_decimal(s: &mut String, n: usize)
    ensures
        final(s)@ == old(s)@ + decimal(n as nat),
    decreases n,
{
    let ghost s0 = s@;
    if n >= 10 {
        push_decimal(s, n / 10);
        let d = (n % 10) as u8;
        s.push((d + 48) as char);
        proof {
            assert(s0 + decimal(n as nat) =~= s0 + decimal((n / 10) as nat) + seq![
                (((n % 10) + 48) as u8) as char,
            ]);
        }
    } else {
        let d = n as u8;
        s.push((d + 48) as char);
        proof {
            assert(s0 + decimal(n as nat) =~= s0.push(((n + 48) as u8) as char));
        }
    }
}

/// The characters of `a` followed by those of `b` and `c`, as a `String`.
pub fn concat3(a: &str, b: &str, c: &str) -> (r: String)
    ensures
        r@ == a@ + b@ + c@,
{
    let mut r = String::new();
    push_str(&mut r, a);
    push_str(&mut r, b);
    push_str(&mut r, c);
    proof {
        assert(Seq::<char>::empty() + a@ + b@ + c@ =~= a@ + b@ + c@);
    }
    r
}

} // verus!
