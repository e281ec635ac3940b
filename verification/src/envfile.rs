//! Reading `KEY=value` entries out of the text of a `.env` file.

use vstd::prelude::*;
use crate::resolver::{escape, escape_char, env_line, env_file_text, needs_quoting_spec};
use crate::text::{is_ws, trim_start,
    trim, trim_end, first_index_of, lemma_first_index_of, replace_pair, chars_of, trim_range, trim_end_range,
    find_in_range, replace_pair_chars, string_of_range, string_of_chars,
};

verus! {

/// One `KEY=value` entry read from a `.env` file.
pub struct ParsedEnvEntry {
    pub key: String,
    pub value: String,
}

/// A double-quoted value with its escapes `\"`, `\n`, `\r` and `\\` undone,
/// one kind after the other, as four successive `str::replace` calls do.
pub open spec fn unescape(s: Seq<char>) -> Seq<char> {
    replace_pair(
        replace_pair(replace_pair(replace_pair(s, '\\', '"', '"'), '\\', 'n', '\n'), '\\', 'r', '\r'),
        '\\',
        '\\',
        '\\',
    )
}

/// The first index at which `s` holds a space followed by `#`.
pub open spec fn space_hash_at(s: Seq<char>) -> Option<int>
    decreases s.len(),
{
    if s.len() < 2 {
        None
    } else if s[0] == ' ' && s[1] == '#' {
        Some(0)
    } else {
        match space_hash_at(s.drop_first()) {
            Some(i) => Some(i + 1),
            None => None,
        }
    }
}

/// The value that the text `raw` (already trimmed) stands for: the inside of
/// double quotes, unescaped; the inside of single quotes, as is; else the text
/// before an inline ` #` comment, without trailing white space.
pub open spec fn value_of_raw(raw: Seq<char>) -> Seq<char> {
    if raw.len() >= 2 && raw[0] == '"' && raw.last() == '"' {
        unescape(raw.subrange(1, raw.len() - 1))
    } else if raw.len() >= 2 && raw[0] == '\'' && raw.last() == '\'' {
        raw.subrange(1, raw.len() - 1)
    } else {
        match space_hash_at(raw) {
            Some(h) => trim_end(raw.take(h)),
            None => raw,
        }
    }
}

/// The line starts with `export `.
pub open spec fn starts_with_export(t: Seq<char>) -> bool {
    t.len() >= 7 && t.take(7) == "export "@
}

/// The entry that one line declares, if any: blank lines and `#` comments
/// declare none, an optional `export ` prefix is dropped, the key is what
/// precedes the first `=`, and a line without `=` or with an empty key
/// declares none.
pub open spec fn parse_line(l: Seq<char>) -> Option<(Seq<char>, Seq<char>)> {
    let t = trim(l);
    if t.len() == 0 || t[0] == '#' {
        None
    } else {
        let body = trim(if starts_with_export(t) { t.skip(7) } else { t });
        match first_index_of(body, '=') {
            None => None,
            Some(eq) => {
                let key = trim(body.take(eq));
                let raw = trim(body.skip(eq + 1));
                if key.len() == 0 {
                    None
                } else {
                    Some((key, value_of_raw(raw)))
                }
            },
        }
    }
}

/// The entries declared by the lines of `t`, in order.
pub open spec fn parse_env_spec(t: Seq<char>) -> Seq<(Seq<char>, Seq<char>)>
    decreases t.len(),
{
    proof {
        lemma_first_index_of(t, '\n');
    }
    match first_index_of(t, '\n') {
        Some(i) => entry_seq(parse_line(t.take(i))) + parse_env_spec(t.skip(i + 1)),
        None => entry_seq(parse_line(t)),
    }
}

/// No entry, or one.
pub open spec fn entry_seq(e: Option<(Seq<char>, Seq<char>)>) -> Seq<(Seq<char>, Seq<char>)> {
    match e {
        Some(p) => seq![p],
        None => Seq::empty(),
    }
}

/// The entries `r` hold the keys and values `p`.
pub open spec fn entries_match(r: Seq<ParsedEnvEntry>, p: Seq<(Seq<char>, Seq<char>)>) -> bool {
    &&& r.len() == p.len()
    &&& forall|k: int| 0 <= k < r.len() ==> (#[trigger] r[k]).key@ == p[k].0 && r[k].value@ == p[k].1
}

/// What `space_hash_at` finds.
proof fn lemma_space_hash_at(s: Seq<char>)
    ensures
        match space_hash_at(s) {
            Some(i) => 0 <= i && i + 1 < s.len() && s[i] == ' ' && s[i + 1] == '#' && forall|j: int|
                0 <= j < i ==> !(#[trigger] s[j] == ' ' && s[j + 1] == '#'),
            None => forall|j: int| 0 <= j && j + 1 < s.len() ==> !(#[trigger] s[j] == ' ' && s[j + 1] == '#'),
        },
    decreases s.len(),
{
    if s.len() >= 2 {
        lemma_space_hash_at(s.drop_first());
        let t = s.drop_first();
        if !(s[0] == ' ' && s[1] == '#') {
            match space_hash_at(t) {
                Some(i) => {
                    assert forall|j: int| 0 <= j < i + 1 implies !(#[trigger] s[j] == ' ' && s[j + 1] == '#') by {
                        if j > 0 {
                            assert(s[j] == t[j - 1] && s[j + 1] == t[j]);
                        }
                    }
                    assert(s[i + 1] == t[i] && s[i + 2] == t[i + 1]);
                },
                None => {
                    assert forall|j: int| 0 <= j && j + 1 < s.len() implies !(#[trigger] s[j] == ' ' && s[j + 1] == '#') by {
                        if j > 0 {
                            assert(s[j] == t[j - 1] && s[j + 1] == t[j]);
                        }
                    }
                },
            }
        }
    }
}

/// The first index in `s[lo..hi]` that holds a space followed by `#`.
fn find_space_hash(s: &Vec<char>, lo: usize, hi: usize) -> (r: Option<usize>)
    requires
        lo <= hi <= s.len(),
    ensures
        match r {
            Some(h) => lo <= h < hi && space_hash_at(s@.subrange(lo as int, hi as int)) == Some(h - lo),
            None => space_hash_at(s@.subrange(lo as int, hi as int)) is None,
        },
{
    let ghost t = s@.subrange(lo as int, hi as int);
    proof {
        lemma_space_hash_at(t);
    }
    let mut i = lo;
    while hi - i >= 2
        invariant
            lo <= i <= hi <= s.len(),
            t == s@.subrange(lo as int, hi as int),
            forall|j: int| lo <= j < i ==> !(#[trigger] s@[j] == ' ' && s@[j + 1] == '#'),
        decreases hi - i,
    {
        if s[i] == ' ' && s[i + 1] == '#' {
            proof {
                lemma_space_hash_at(t);
                match space_hash_at(t) {
                    Some(k) => {
                        if k < i - lo {
                            assert(t[k] == s@[lo + k] && t[k + 1] == s@[lo + k + 1]);
                        }
                        if k > i - lo {
                            assert(t[i - lo] == s@[i as int] && t[i - lo + 1] == s@[i + 1]);
                        }
                    },
                    None => {
                        assert(t[i - lo] == s@[i as int] && t[i - lo + 1] == s@[i + 1]);
                    },
                }
            }
            return Some(i);
        }
        i = i + 1;
    }
    proof {
        lemma_space_hash_at(t);
        if let Some(k) = space_hash_at(t) {
            assert(t[k] == s@[lo + k] && t[k + 1] == s@[lo + k + 1]);
        }
    }
    None
}

/// The characters of `s[lo..hi]`.
fn chars_of_range(s: &Vec<char>, lo: usize, hi: usize) -> (v: Vec<char>)
    requires
        lo <= hi <= s.len(),
    ensures
        v@ == s@.subrange(lo as int, hi as int),
{
    let mut v: Vec<char> = Vec::new();
    let mut i = lo;
    while i < hi
        invariant
            lo <= i <= hi <= s.len(),
            v@ == s@.subrange(lo as int, i as int),
        decreases hi - i,
    {
        v.push(s[i]);
        proof {
            assert(s@.subrange(lo as int, i + 1) =~= s@.subrange(lo as int, i as int).push(s@[i as int]));
        }
        i = i + 1;
    }
    v
}

/// The value that the trimmed text `s[p..q]` stands for.
fn value_of_range(s: &Vec<char>, p: usize, q: usize) -> (v: String)
    requires
        p <= q <= s.len(),
    ensures
        v@ == value_of_raw(s@.subrange(p as int, q as int)),
{
    let ghost raw = s@.subrange(p as int, q as int);
    if q - p >= 2 && s[p] == '"' && s[q - 1] == '"' {
        let inner = chars_of_range(s, p + 1, q - 1);
        let a = replace_pair_chars(&inner, '\\', '"', '"');
        let b = replace_pair_chars(&a, '\\', 'n', '\n');
        let c = replace_pair_chars(&b, '\\', 'r', '\r');
        let d = replace_pair_chars(&c, '\\', '\\', '\\');
        proof {
            assert(raw.subrange(1, raw.len() - 1) =~= inner@);
        }
        string_of_chars(&d)
    } else if q - p >= 2 && s[p] == '\'' && s[q - 1] == '\'' {
        proof {
            assert(raw.subrange(1, raw.len() - 1) =~= s@.subrange(p + 1, q - 1));
        }
        string_of_range(s, p + 1, q - 1)
    } else {
        match find_space_hash(s, p, q) {
            Some(h) => {
                let e = trim_end_range(s, p, h);
                proof {
                    assert(raw.take(h - p) =~= s@.subrange(p as int, h as int));
                }
                string_of_range(s, p, e)
            },
            None => string_of_range(s, p, q),
        }
    }
}

/// The entry that the line `s[lo..hi]` declares, if any.
fn parse_line_range(s: &Vec<char>, lo: usize, hi: usize) -> (r: Option<ParsedEnvEntry>)
    requires
        lo <= hi <= s.len(),
    ensures
        match parse_line(s@.subrange(lo as int, hi as int)) {
            Some(e) => r matches Some(x) && x.key@ == e.0 && x.value@ == e.1,
            None => r is None,
        },
{
    let ghost t = trim(s@.subrange(lo as int, hi as int));
    let (a, b) = trim_range(s, lo, hi);
    if a == b || s[a] == '#' {
        return None;
    }
    let export = b - a >= 7 && s[a] == 'e' && s[a + 1] == 'x' && s[a + 2] == 'p' && s[a + 3] == 'o'
        && s[a + 4] == 'r' && s[a + 5] == 't' && s[a + 6] == ' ';
    proof {
        reveal_strlit("export ");
        if t.len() >= 7 {
            if export {
                assert(t.take(7) =~= "export "@);
            } else {
                assert("export "@[0] == 'e' && "export "@[1] == 'x' && "export "@[2] == 'p');
                assert("export "@[3] == 'o' && "export "@[4] == 'r' && "export "@[5] == 't');
                assert("export "@[6] == ' ');
                if t.take(7) == "export "@ {
                    assert(t.take(7)[0] == s@[a as int]);
                    assert(t.take(7)[1] == s@[a + 1]);
                    assert(t.take(7)[2] == s@[a + 2]);
                    assert(t.take(7)[3] == s@[a + 3]);
                    assert(t.take(7)[4] == s@[a + 4]);
                    assert(t.take(7)[5] == s@[a + 5]);
                    assert(t.take(7)[6] == s@[a + 6]);
                }
            }
        }
        assert(export == starts_with_export(t));
    }
    let start = if export { a + 7 } else { a };
    proof {
        if export {
            assert(t.skip(7) =~= s@.subrange(start as int, b as int));
        }
    }
    let (c, d) = trim_range(s, start, b);
    let ghost body = s@.subrange(c as int, d as int);
    let e = match find_in_range(s, '=', c, d) {
        Some(e) => e,
        None => {
            return None;
        },
    };
    proof {
        assert(body.take(e - c) =~= s@.subrange(c as int, e as int));
        assert(body.skip(e - c + 1) =~= s@.subrange(e + 1, d as int));
    }
    let (ka, kb) = trim_range(s, c, e);
    if ka == kb {
        return None;
    }
    let (p, q) = trim_range(s, e + 1, d);
    let key = string_of_range(s, ka, kb);
    let value = value_of_range(s, p, q);
    Some(ParsedEnvEntry { key, value })
}

/// The `KEY=value` entries that the lines of `text` declare, in order.
pub fn parse_env_text(text: &str) -> (entries: Vec<ParsedEnvEntry>)
    ensures
        entries_match(entries@, parse_env_spec(text@)),
{
    let v = chars_of(text);
    let ghost t = v@;
    let mut entries: Vec<ParsedEnvEntry> = Vec::new();
    let ghost mut acc: Seq<(Seq<char>, Seq<char>)> = Seq::empty();
    let mut pos: usize = 0;
    let mut done = false;
    proof {
        assert(t.skip(0) =~= t);
    }
    while !done
        invariant
            t == v@,
            pos <= v.len(),
            entries_match(entries@, acc),
            !done ==> parse_env_spec(t) == acc + parse_env_spec(t.skip(pos as int)),
            done ==> parse_env_spec(t) == acc,
        decreases v.len() - pos + (if done { 0int } else { 1int }),
    {
        let ghost rest = t.skip(pos as int);
        match find_in_range(&v, '\n', pos, v.len()) {
            Some(j) => {
                let e = parse_line_range(&v, pos, j);
                proof {
                    assert(t.subrange(pos as int, v.len() as int) =~= rest);
                    assert(rest.take(j - pos) =~= t.subrange(pos as int, j as int));
                    assert(rest.skip(j - pos + 1) =~= t.skip(j + 1));
                }
                let ghost here = entry_seq(parse_line(t.subrange(pos as int, j as int)));
                if let Some(x) = e {
                    entries.push(x);
                }
                proof {
                    assert(acc + parse_env_spec(rest) =~= (acc + here) + parse_env_spec(t.skip(j + 1)));
                    acc = acc + here;
                }
                pos = j + 1;
            },
            None => {
                let e = parse_line_range(&v, pos, v.len());
                proof {
                    assert(t.subrange(pos as int, v.len() as int) =~= rest);
                }
                let ghost here = entry_seq(parse_line(rest));
                if let Some(x) = e {
                    entries.push(x);
                }
                proof {
                    acc = acc + here;
                }
                done = true;
            },
        }
    }
    entries
}

// ---- reading back what `format_env_file` writes ----

/// A key that reads back as written: not empty, not a comment, without
/// white space and without `=`.
pub open spec fn plain_key(k: Seq<char>) -> bool {
    &&& k.len() > 0
    &&& k[0] != '#'
    &&& forall|i: int| 0 <= i < k.len() ==> !is_ws(#[trigger] k[i]) && k[i] != '='
}

/// A value that reads back as written: without backslashes, and when it is
/// written without quotes, not starting or ending with white space.
pub open spec fn plain_value(v: Seq<char>) -> bool {
    &&& !v.contains('\\')
    &&& !needs_quoting_spec(v) ==> !is_ws(v[0]) && !is_ws(v.last())
}

/// The keys and values of `pairs`, as text.
pub open spec fn pair_texts(pairs: Seq<(String, String)>) -> Seq<(Seq<char>, Seq<char>)> {
    pairs.map_values(|p: (String, String)| (p.0@, p.1@))
}

/// Whether `c` is written as a backslash and a letter at escape stage `level`:
/// stage 0 escapes `"`, newline and carriage return, stage 1 the last two,
/// stage 2 only carriage return, stage 3 nothing.
pub open spec fn escaped_at(c: char, level: int) -> bool {
    ||| c == '"' && level < 1
    ||| c == '\n' && level < 2
    ||| c == '\r' && level < 3
}

/// The letter after the backslash for an escaped character.
pub open spec fn escape_letter(c: char) -> char {
    if c == '"' {
        '"'
    } else if c == '\n' {
        'n'
    } else {
        'r'
    }
}

/// `v` escaped as far as stage `level` still escapes.
pub open spec fn escaped_from(v: Seq<char>, level: int) -> Seq<char>
    decreases v.len(),
{
    if v.len() == 0 {
        Seq::empty()
    } else {
        (if escaped_at(v[0], level) {
            seq!['\\', escape_letter(v[0])]
        } else {
            seq![v[0]]
        }) + escaped_from(v.drop_first(), level)
    }
}

/// Escaping a sequence that starts with `c`.
proof fn lemma_escape_cons(c: char, w: Seq<char>)
    ensures
        escape(seq![c] + w) == escape_char(c) + escape(w),
    decreases w.len(),
{
    let s = seq![c] + w;
    if w.len() == 0 {
        assert(s.drop_last() =~= Seq::<char>::empty());
        assert(s.last() == c);
        assert(escape(s.drop_last()) == Seq::<char>::empty());
        assert(escape(w) == Seq::<char>::empty());
        assert(escape(s) == escape(s.drop_last()) + escape_char(c));
        assert(escape(s) =~= escape_char(c) + escape(w));
    } else {
        assert(s.drop_last() =~= seq![c] + w.drop_last());
        assert(s.last() == w.last());
        lemma_escape_cons(c, w.drop_last());
        assert(escape(s) == escape(seq![c] + w.drop_last()) + escape_char(w.last()));
        assert(escape(w) == escape(w.drop_last()) + escape_char(w.last()));
        assert(escape(s) =~= escape_char(c) + escape(w));
    }
}

/// Without backslashes, escaping is stage 0.
proof fn lemma_escape_stage0(v: Seq<char>)
    requires
        !v.contains('\\'),
    ensures
        escape(v) == escaped_from(v, 0),
    decreases v.len(),
{
    if v.len() > 0 {
        let w = v.drop_first();
        assert(v =~= seq![v[0]] + w);
        assert(!w.contains('\\')) by {
            if w.contains('\\') {
                let k = choose|k: int| 0 <= k < w.len() && w[k] == '\\';
                assert(v[k + 1] == '\\');
            }
        }
        assert(v[0] != '\\');
        lemma_escape_cons(v[0], w);
        lemma_escape_stage0(w);
    }
}

/// `str::replace` passes over a first character that does not start the pattern.
proof fn lemma_replace_pair_keep(x: char, t: Seq<char>, a: char, b: char, r: char)
    requires
        x != a,
    ensures
        replace_pair(seq![x] + t, a, b, r) == seq![x] + replace_pair(t, a, b, r),
{
    let s = seq![x] + t;
    if s.len() < 2 {
        assert(t.len() == 0);
        assert(replace_pair(t, a, b, r) == t);
        assert(s =~= seq![x] + t);
    } else {
        assert(s.drop_first() =~= t);
    }
}

/// `str::replace` replaces a pattern at the start.
proof fn lemma_replace_pair_hit(t: Seq<char>, a: char, b: char, r: char)
    ensures
        replace_pair(seq![a, b] + t, a, b, r) == seq![r] + replace_pair(t, a, b, r),
{
    let s = seq![a, b] + t;
    assert(s[0] == a && s[1] == b);
    assert(s.skip(2) =~= t);
}

/// One unescaping pass undoes one stage of escaping.
proof fn lemma_unescape_stage(v: Seq<char>, level: int, x: char, r: char)
    requires
        !v.contains('\\'),
        0 <= level < 3,
        level == 0 ==> x == '"' && r == '"',
        level == 1 ==> x == 'n' && r == '\n',
        level == 2 ==> x == 'r' && r == '\r',
    ensures
        replace_pair(escaped_from(v, level), '\\', x, r) == escaped_from(v, level + 1),
    decreases v.len(),
{
    if v.len() > 0 {
        let c = v[0];
        let w = v.drop_first();
        assert(!w.contains('\\')) by {
            if w.contains('\\') {
                let k = choose|k: int| 0 <= k < w.len() && w[k] == '\\';
                assert(v[k + 1] == '\\');
            }
        }
        assert(c != '\\');
        lemma_unescape_stage(w, level, x, r);
        let rest = escaped_from(w, level);
        if escaped_at(c, level) {
            if c == r {
                assert(escape_letter(c) == x);
                lemma_replace_pair_hit(rest, '\\', x, r);
                assert(!escaped_at(c, level + 1));
                assert(escaped_from(v, level) =~= seq!['\\', x] + rest);
                assert(escaped_from(v, level + 1) =~= seq![c] + escaped_from(w, level + 1));
            } else {
                let l = escape_letter(c);
                assert(l != x);
                assert(l != '\\');
                assert(escaped_at(c, level + 1));
                assert(seq!['\\', l] + rest =~= seq!['\\'] + (seq![l] + rest));
                lemma_replace_pair_keep(l, rest, '\\', x, r);
                let s = seq!['\\'] + (seq![l] + rest);
                assert(s.len() >= 2 && !(s[0] == '\\' && s[1] == x));
                assert(s.drop_first() =~= seq![l] + rest);
                assert(replace_pair(s, '\\', x, r) =~= seq!['\\'] + replace_pair(seq![l] + rest, '\\', x, r));
                assert(escaped_from(v, level) =~= s);
                assert(escaped_from(v, level + 1) =~= seq!['\\', l] + escaped_from(w, level + 1));
            }
        } else {
            lemma_replace_pair_keep(c, rest, '\\', x, r);
            assert(!escaped_at(c, level + 1));
            assert(escaped_from(v, level) =~= seq![c] + rest);
            assert(escaped_from(v, level + 1) =~= seq![c] + escaped_from(w, level + 1));
        }
    }
}

/// Stage 3 escapes nothing.
proof fn lemma_stage3(v: Seq<char>)
    ensures
        escaped_from(v, 3) == v,
    decreases v.len(),
{
    if v.len() > 0 {
        lemma_stage3(v.drop_first());
        assert(v =~= seq![v[0]] + v.drop_first());
    }
}

/// Replacing a pattern that starts with a character absent from `s` changes nothing.
proof fn lemma_replace_pair_absent(s: Seq<char>, a: char, b: char, r: char)
    requires
        !s.contains(a),
    ensures
        replace_pair(s, a, b, r) == s,
    decreases s.len(),
{
    if s.len() >= 2 {
        assert(s[0] != a);
        let w = s.drop_first();
        assert(!w.contains(a)) by {
            if w.contains(a) {
                let k = choose|k: int| 0 <= k < w.len() && w[k] == a;
                assert(s[k + 1] == a);
            }
        }
        lemma_replace_pair_absent(w, a, b, r);
        assert(s =~= seq![s[0]] + w);
    }
}

/// Unescaping undoes escaping for a value without backslashes.
pub proof fn lemma_unescape_escape(v: Seq<char>)
    requires
        !v.contains('\\'),
    ensures
        unescape(escape(v)) == v,
{
    lemma_escape_stage0(v);
    lemma_unescape_stage(v, 0, '"', '"');
    lemma_unescape_stage(v, 1, 'n', '\n');
    lemma_unescape_stage(v, 2, 'r', '\r');
    lemma_stage3(v);
    lemma_replace_pair_absent(v, '\\', '\\', '\\');
}

/// The text written for a value: between double quotes and escaped when
/// it needs quoting, else as it is.
pub open spec fn written_value(v: Seq<char>) -> Seq<char> {
    if needs_quoting_spec(v) {
        seq!['"'] + escape(v) + seq!['"']
    } else {
        v
    }
}

/// Stage-0 escaping writes no newline.
proof fn lemma_escaped_no_newline(v: Seq<char>)
    ensures
        !escaped_from(v, 0).contains('\n'),
    decreases v.len(),
{
    if v.len() > 0 {
        lemma_escaped_no_newline(v.drop_first());
        let rest = escaped_from(v.drop_first(), 0);
        let head = if escaped_at(v[0], 0) {
            seq!['\\', escape_letter(v[0])]
        } else {
            seq![v[0]]
        };
        assert(escaped_from(v, 0) == head + rest);
        if (head + rest).contains('\n') {
            let k = choose|k: int| 0 <= k < (head + rest).len() && (head + rest)[k] == '\n';
            if k >= head.len() {
                assert(rest[k - head.len()] == '\n');
            }
        }
    }
}

/// `trim` leaves text that starts and ends with non-white-space alone.
proof fn lemma_trim_plain(s: Seq<char>)
    requires
        s.len() > 0,
        !is_ws(s[0]),
        !is_ws(s.last()),
    ensures
        trim(s) == s,
{
    assert(trim_start(s) == s);
    assert(trim_end(s) == s);
}

/// The first occurrence of `c` in `s` is at `i`.
proof fn lemma_first_at(s: Seq<char>, c: char, i: int)
    requires
        0 <= i < s.len(),
        s[i] == c,
        forall|j: int| 0 <= j < i ==> s[j] != c,
    ensures
        first_index_of(s, c) == Some(i),
{
    lemma_first_index_of(s, c);
    match first_index_of(s, c) {
        Some(k) => {
            if k < i {
                assert(s[k] != c);
            }
            if k > i {
                assert(s[i] != c);
            }
        },
        None => {
            assert(s.contains(c));
        },
    }
}

/// A line `key=value` made of a plain key and a plain value reads back as
/// that key and value.
proof fn lemma_parse_written_line(k: Seq<char>, v: Seq<char>)
    requires
        plain_key(k),
        plain_value(v),
    ensures
        parse_line(k + seq!['='] + written_value(v)) == Some((k, v)),
{
    reveal_strlit("export ");
    let vt = written_value(v);
    let l = k + seq!['='] + vt;
    let n = k.len() as int;
    assert(vt.len() > 0);
    assert(!is_ws(vt[0]) && !is_ws(vt.last())) by {
        if !needs_quoting_spec(v) {
            assert(vt == v);
        } else {
            assert(vt[0] == '"');
            assert(vt.last() == '"');
        }
    }
    assert(l[0] == k[0]);
    assert(l.last() == vt.last());
    assert(!is_ws(k[0]));
    lemma_trim_plain(l);
    assert(trim(l) == l);
    assert(l[n] == '=');
    assert(!starts_with_export(l)) by {
        if starts_with_export(l) {
            assert(l.take(7) == "export "@);
            if n >= 7 {
                assert(l[6] == k[6]);
                assert(l.take(7)[6] == ' ');
                assert(is_ws(k[6]));
            } else {
                assert(l.take(7)[n] == '=');
                assert("export "@[n] != '=');
            }
        }
    }
    assert forall|j: int| 0 <= j < n implies l[j] != '=' by {
        assert(l[j] == k[j]);
    }
    lemma_first_at(l, '=', n);
    assert(l.take(n) =~= k);
    assert(l.skip(n + 1) =~= vt);
    lemma_trim_plain(k);
    lemma_trim_plain(vt);
    if needs_quoting_spec(v) {
        assert(vt.subrange(1, vt.len() - 1) =~= escape(v));
        lemma_unescape_escape(v);
    } else {
        assert(vt == v);
        assert(!v.contains('"'));
        assert(v[0] != '"');
        assert(!v.contains('\''));
        assert(v[0] != '\'');
        lemma_space_hash_at(v);
        if let Some(i) = space_hash_at(v) {
            assert(v[i + 1] == '#');
            assert(v.contains('#'));
        }
    }
}

/// The text of the pairs, taken from the first line.
proof fn lemma_env_file_front(pairs: Seq<(String, String)>)
    requires
        pairs.len() > 0,
    ensures
        env_file_text(pairs) == env_line(pairs[0].0@, pairs[0].1@) + env_file_text(pairs.drop_first()),
    decreases pairs.len(),
{
    if pairs.len() == 1 {
        assert(pairs.drop_last() =~= Seq::<(String, String)>::empty());
        assert(pairs.drop_first() =~= Seq::<(String, String)>::empty());
        assert(env_file_text(pairs.drop_last()) == Seq::<char>::empty());
        assert(pairs.last() == pairs[0]);
        assert(env_file_text(pairs) == env_file_text(pairs.drop_last()) + env_line(
            pairs.last().0@,
            pairs.last().1@,
        ));
        assert(env_file_text(pairs) =~= env_line(pairs[0].0@, pairs[0].1@));
    } else {
        let p = pairs.drop_last();
        lemma_env_file_front(p);
        assert(p.drop_first() =~= pairs.drop_first().drop_last());
        assert(pairs.drop_first().last() == pairs.last());
        assert(env_file_text(pairs.drop_first()) == env_file_text(pairs.drop_first().drop_last())
            + env_line(pairs.last().0@, pairs.last().1@));
        assert(env_file_text(pairs) =~= env_line(pairs[0].0@, pairs[0].1@) + env_file_text(
            pairs.drop_first(),
        ));
    }
}

/// Reading a first line that ends with a newline, then the rest.
proof fn lemma_parse_split(c: Seq<char>, rest: Seq<char>)
    requires
        !c.contains('\n'),
    ensures
        parse_env_spec(c + seq!['\n'] + rest) == entry_seq(parse_line(c)) + parse_env_spec(rest),
{
    let t = c + seq!['\n'] + rest;
    assert forall|j: int| 0 <= j < c.len() implies t[j] != '\n' by {
        assert(t[j] == c[j]);
    }
    lemma_first_at(t, '\n', c.len() as int);
    assert(t.take(c.len() as int) =~= c);
    assert(t.skip(c.len() as int + 1) =~= rest);
}

/// Reading back what `format_env_file` writes gives the pairs written, when
/// every key and every value is plain.
pub proof fn lemma_env_file_round_trip(pairs: Seq<(String, String)>)
    requires
        forall|i: int|
            0 <= i < pairs.len() ==> plain_key((#[trigger] pairs[i]).0@) && plain_value(pairs[i].1@),
    ensures
        parse_env_spec(env_file_text(pairs)) == pair_texts(pairs),
    decreases pairs.len(),
{
    reveal_strlit("=\"");
    reveal_strlit("\"\n");
    reveal_strlit("=");
    reveal_strlit("\n");
    if pairs.len() == 0 {
        assert(parse_line(Seq::<char>::empty()) is None);
        assert(pair_texts(pairs) =~= Seq::<(Seq<char>, Seq<char>)>::empty());
    } else {
        let k = pairs[0].0@;
        let v = pairs[0].1@;
        let rest = pairs.drop_first();
        assert forall|i: int| 0 <= i < rest.len() implies plain_key((#[trigger] rest[i]).0@)
            && plain_value(rest[i].1@) by {
            assert(rest[i] == pairs[i + 1]);
        }
        lemma_env_file_round_trip(rest);
        lemma_env_file_front(pairs);
        let c = k + seq!['='] + written_value(v);
        assert(env_line(k, v) =~= c + seq!['\n']);
        assert(!c.contains('\n')) by {
            if c.contains('\n') {
                let j = choose|j: int| 0 <= j < c.len() && c[j] == '\n';
                if j < k.len() {
                    assert(c[j] == k[j]);
                } else if j > k.len() {
                    let w = written_value(v);
                    assert(w[j - k.len() - 1] == '\n');
                    if needs_quoting_spec(v) {
                        assert(!v.contains('\\'));
                        lemma_escape_stage0(v);
                        lemma_escaped_no_newline(v);
                        if 1 <= j - k.len() - 1 < w.len() - 1 {
                            assert(escape(v)[j - k.len() - 2] == '\n');
                        }
                    } else {
                        assert(v[j - k.len() - 1] == '\n');
                    }
                }
            }
        }
        lemma_parse_split(c, env_file_text(rest));
        assert(c + seq!['\n'] + env_file_text(rest) =~= env_line(k, v) + env_file_text(rest));
        lemma_parse_written_line(k, v);
        assert(pair_texts(pairs) =~= seq![(k, v)] + pair_texts(rest));
    }
}

// ---- laws of reading a `.env` file ----

/// Reading a text whose first line is `a` and whose other lines are `b`
/// gives the entries of `a` followed by those of `b`: every line is read on
/// its own.
pub proof fn lemma_parse_concat(a: Seq<char>, b: Seq<char>)
    ensures
        parse_env_spec(a + seq!['\n'] + b) == parse_env_spec(a) + parse_env_spec(b),
    decreases a.len(),
{
    let t = a + seq!['\n'] + b;
    lemma_first_index_of(a, '\n');
    match first_index_of(a, '\n') {
        None => {
            lemma_parse_split(a, b);
            assert(parse_env_spec(a) == entry_seq(parse_line(a)));
        },
        Some(i) => {
            let a1 = a.take(i);
            let a2 = a.skip(i + 1);
            assert(!a1.contains('\n')) by {
                if a1.contains('\n') {
                    let j = choose|j: int| 0 <= j < a1.len() && a1[j] == '\n';
                    assert(a[j] == '\n');
                }
            }
            assert(a =~= a1 + seq!['\n'] + a2);
            assert(t =~= a1 + seq!['\n'] + (a2 + seq!['\n'] + b));
            lemma_parse_split(a1, a2 + seq!['\n'] + b);
            lemma_parse_split(a1, a2);
            lemma_parse_concat(a2, b);
            assert(parse_env_spec(t) =~= parse_env_spec(a) + parse_env_spec(b));
        },
    }
}

/// A comment line (one whose trimmed text starts with `#`) declares nothing:
/// reading a text gives the same entries with or without it, wherever it
/// stands, and a text that is only a comment gives none.
pub proof fn lemma_comment_line_skipped(a: Seq<char>, c: Seq<char>, b: Seq<char>)
    requires
        !c.contains('\n'),
        trim(c).len() > 0,
        trim(c)[0] == '#',
    ensures
        parse_env_spec(c) == Seq::<(Seq<char>, Seq<char>)>::empty(),
        parse_env_spec(c + seq!['\n'] + b) == parse_env_spec(b),
        parse_env_spec(a + seq!['\n'] + c + seq!['\n'] + b) == parse_env_spec(a + seq!['\n'] + b),
        parse_env_spec(a + seq!['\n'] + c) == parse_env_spec(a),
{
    lemma_first_index_of(c, '\n');
    assert(parse_line(c) is None);
    assert(parse_env_spec(c) =~= Seq::<(Seq<char>, Seq<char>)>::empty());
    lemma_parse_split(c, b);
    assert(parse_env_spec(c + seq!['\n'] + b) =~= parse_env_spec(b));
    lemma_parse_concat(a, c + seq!['\n'] + b);
    assert(a + seq!['\n'] + c + seq!['\n'] + b =~= a + seq!['\n'] + (c + seq!['\n'] + b));
    lemma_parse_concat(a, b);
    lemma_parse_concat(a, c);
    assert(parse_env_spec(a + seq!['\n'] + c) =~= parse_env_spec(a));
}

/// A line `key=raw` with a plain key and a value text that neither starts nor
/// ends with white space declares `key` with the value that `raw` stands for.
proof fn lemma_parse_key_raw(k: Seq<char>, w: Seq<char>)
    requires
        plain_key(k),
        w.len() > 0,
        !is_ws(w[0]),
        !is_ws(w.last()),
    ensures
        parse_line(k + seq!['='] + w) == Some((k, value_of_raw(w))),
{
    reveal_strlit("export ");
    let l = k + seq!['='] + w;
    let n = k.len() as int;
    assert(l[0] == k[0]);
    assert(l.last() == w.last());
    lemma_trim_plain(l);
    assert(l[n] == '=');
    assert(!starts_with_export(l)) by {
        if starts_with_export(l) {
            assert(l.take(7) == "export "@);
            if n >= 7 {
                assert(l[6] == k[6]);
                assert(l.take(7)[6] == ' ');
                assert(is_ws(k[6]));
            } else {
                assert(l.take(7)[n] == '=');
                assert("export "@[n] != '=');
            }
        }
    }
    assert forall|j: int| 0 <= j < n implies l[j] != '=' by {
        assert(l[j] == k[j]);
    }
    lemma_first_at(l, '=', n);
    assert(l.take(n) =~= k);
    assert(l.skip(n + 1) =~= w);
    lemma_trim_plain(k);
    lemma_trim_plain(w);
}

/// A single-quoted value is read literally: the line `key='v'`, for a plain
/// key and any value `v` on one line, declares `key` with exactly `v`, with
/// no escape undone and no ` #` comment cut off.
pub proof fn lemma_single_quoted_literal(k: Seq<char>, v: Seq<char>)
    requires
        plain_key(k),
        !v.contains('\n'),
    ensures
        parse_line(k + seq!['='] + (seq!['\''] + v + seq!['\''])) == Some((k, v)),
        parse_env_spec(k + seq!['='] + (seq!['\''] + v + seq!['\''])) == seq![(k, v)],
{
    let w = seq!['\''] + v + seq!['\''];
    assert(w[0] == '\'' && w.last() == '\'');
    lemma_parse_key_raw(k, w);
    assert(w.subrange(1, w.len() - 1) =~= v);
    assert(value_of_raw(w) == v);
    let l = k + seq!['='] + w;
    assert(!l.contains('\n')) by {
        if l.contains('\n') {
            let j = choose|j: int| 0 <= j < l.len() && l[j] == '\n';
            if j < k.len() {
                assert(l[j] == k[j]);
            } else if j > k.len() + 1 && j < l.len() - 1 {
                assert(v[j - k.len() - 2] == '\n');
            }
        }
    }
    lemma_first_index_of(l, '\n');
    assert(parse_env_spec(l) =~= seq![(k, v)]);
}

} // verus!
