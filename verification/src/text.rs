//! Character and string primitives with exact specifications.

use vstd::prelude::*;

verus! {

/// The Unicode `White_Space` property, as `char::is_whitespace` uses it.
pub open spec fn spec_is_whitespace(c: char) -> bool {
    let u = c as u32;
    ||| 0x09 <= u <= 0x0D
    ||| u == 0x20
    ||| u == 0x85
    ||| u == 0xA0
    ||| u == 0x1680
    ||| 0x2000 <= u <= 0x200A
    ||| u == 0x2028
    ||| u == 0x2029
    ||| u == 0x202F
    ||| u == 0x205F
    ||| u == 0x3000
}

/// Whether `c` is a Unicode white-space character.
pub fn is_whitespace(c: char) -> (r: bool)
    ensures
        r == spec_is_whitespace(c),
{
    let u = c as u32;
    (0x09 <= u && u <= 0x0D) || u == 0x20 || u == 0x85 || u == 0xA0 || u == 0x1680 || (0x2000
        <= u && u <= 0x200A) || u == 0x2028 || u == 0x2029 || u == 0x202F || u == 0x205F || u
        == 0x3000
}


/// The characters of `s`, in order.
pub fn chars_of(s: &str) -> (v: Vec<char>)
    ensures
        v@ == s@,
{
    let mut v: Vec<char> = Vec::new();
    for c in it: s.chars()
        invariant
            v@ == it.seq().take(it.index() as int),
            it.seq() == s@,
    {
        v.push(c);
    }
    v
}


/// `String::push` appends one character to the end of the string.
pub assume_specification[ String::push ](s: &mut String, ch: char)
    ensures
        final(s)@ == old(s)@.push(ch),
;

/// A string holding exactly the characters of `v`.
pub fn string_of(v: &Vec<char>) -> (s: String)
    ensures
        s@ == v@,
{
    let mut s = String::new();
    let mut i: usize = 0;
    while i < v.len()
        invariant
            i <= v.len(),
            s@ == v@.take(i as int),
        decreases v.len() - i,
    {
        s.push(v[i]);
        i = i + 1;
        assert(v@.take(i as int) == v@.take(i - 1 as int).push(v@[i - 1]));
    }
    assert(v@.take(v.len() as int) == v@);
    s
}


/// `p` is a prefix of `s`.
pub open spec fn starts_with(s: Seq<char>, p: Seq<char>) -> bool {
    p.len() <= s.len() && s.take(p.len() as int) == p
}

/// `p` is a suffix of `s`.
pub open spec fn ends_with(s: Seq<char>, p: Seq<char>) -> bool {
    p.len() <= s.len() && s.skip(s.len() - p.len()) == p
}

/// `p` occurs in `s` starting at position `i`.
pub open spec fn occurs_at(s: Seq<char>, p: Seq<char>, i: int) -> bool {
    0 <= i && i + p.len() <= s.len() && s.subrange(i, i + p.len()) == p
}

/// `p` occurs somewhere in `s` (the empty pattern occurs everywhere).
pub open spec fn contains(s: Seq<char>, p: Seq<char>) -> bool {
    exists|i: int| occurs_at(s, p, i)
}

/// `s` with every non-overlapping occurrence of `from`, scanned left to
/// right, replaced by `to`.
pub open spec fn replace_all(s: Seq<char>, from: Seq<char>, to: Seq<char>) -> Seq<char>
    decreases s.len(),
{
    if from.len() == 0 || s.len() < from.len() {
        s
    } else if s.take(from.len() as int) == from {
        to + replace_all(s.skip(from.len() as int), from, to)
    } else {
        seq![s[0]] + replace_all(s.skip(1), from, to)
    }
}

/// Appends the characters of `t` to `out`.
pub fn append_chars(out: &mut Vec<char>, t: &Vec<char>)
    ensures
        final(out)@ == old(out)@ + t@,
{
    let mut j: usize = 0;
    while j < t.len()
        invariant
            j <= t.len(),
            out@ == old(out)@ + t@.take(j as int),
        decreases t.len() - j,
    {
        out.push(t[j]);
        j = j + 1;
        assert(t@.take(j as int) == t@.take(j - 1 as int).push(t@[j - 1]));
    }
    assert(t@.take(t.len() as int) == t@);
}

/// Whether `p` occurs in `s` at position `i`.
pub fn matches_at(s: &Vec<char>, p: &Vec<char>, i: usize) -> (r: bool)
    ensures
        r == occurs_at(s@, p@, i as int),
{
    if i > s.len() || p.len() > s.len() - i {
        return false;
    }
    let mut j: usize = 0;
    while j < p.len()
        invariant
            j <= p.len(),
            i + p.len() <= s.len(),
            forall|k: int| 0 <= k < j ==> s@[i + k] == p@[k],
        decreases p.len() - j,
    {
        if s[i + j] != p[j] {
            assert(s@.subrange(i as int, i + p.len())[j as int] != p@[j as int]);
            return false;
        }
        j = j + 1;
    }
    assert(s@.subrange(i as int, i + p.len()) =~= p@);
    true
}

/// Whether `p` occurs anywhere in `s`.
pub fn contains_chars(s: &Vec<char>, p: &Vec<char>) -> (r: bool)
    ensures
        r == contains(s@, p@),
{
    if p.len() > s.len() {
        return false;
    }
    let last = s.len() - p.len();
    let mut i: usize = 0;
    loop
        invariant
            p.len() <= s.len(),
            last == s.len() - p.len(),
            i <= last,
            forall|k: int| 0 <= k < i ==> !occurs_at(s@, p@, k),
        decreases last - i,
    {
        if matches_at(s, p, i) {
            return true;
        }
        if i == last {
            return false;
        }
        i = i + 1;
    }
}

/// Whether `p` is a prefix of `s`.
pub fn starts_with_chars(s: &Vec<char>, p: &Vec<char>) -> (r: bool)
    ensures
        r == starts_with(s@, p@),
{
    let r = matches_at(s, p, 0);
    proof {
        if p@.len() <= s@.len() {
            assert(s@.subrange(0, p@.len() as int) == s@.take(p@.len() as int));
        }
    }
    r
}

/// Whether `p` is a suffix of `s`.
pub fn ends_with_chars(s: &Vec<char>, p: &Vec<char>) -> (r: bool)
    ensures
        r == ends_with(s@, p@),
{
    if p.len() > s.len() {
        return false;
    }
    let r = matches_at(s, p, s.len() - p.len());
    assert(s@.subrange(s.len() - p.len(), s@.len() as int) == s@.skip(s.len() - p.len()));
    r
}

proof fn lemma_replace_short(s: Seq<char>, from: Seq<char>, to: Seq<char>)
    requires
        from.len() > 0,
        s.len() < from.len(),
    ensures
        replace_all(s, from, to) == s,
{
}

/// `s` with every non-overlapping occurrence of `from` replaced by `to`,
/// scanning left to right.
pub fn replace_chars(s: &Vec<char>, from: &Vec<char>, to: &Vec<char>) -> (r: Vec<char>)
    requires
        from.len() > 0,
    ensures
        r@ == replace_all(s@, from@, to@),
{
    let mut out: Vec<char> = Vec::new();
    let mut i: usize = 0;
    assert(s@.skip(0) == s@);
    while i < s.len()
        invariant
            i <= s.len(),
            from.len() > 0,
            replace_all(s@, from@, to@) == out@ + replace_all(s@.skip(i as int), from@, to@),
        decreases s.len() - i,
    {
        let ghost rest = s@.skip(i as int);
        if matches_at(s, from, i) {
            assert(rest.take(from.len() as int) == s@.subrange(i as int, i + from.len()));
            assert(rest.skip(from.len() as int) == s@.skip(i + from.len()));
            append_chars(&mut out, to);
            i = i + from.len();
        } else {
            proof {
                if rest.len() >= from.len() {
                    assert(rest.take(from.len() as int) == s@.subrange(i as int, i + from.len()));
                } else {
                    lemma_replace_short(rest, from@, to@);
                    lemma_replace_short(rest.skip(1), from@, to@);
                }
                assert(rest.skip(1) == s@.skip(i + 1));
                assert(rest[0] == s@[i as int]);
            }
            out.push(s[i]);
            i = i + 1;
        }
        assert(out@ + replace_all(s@.skip(i as int), from@, to@) == replace_all(
            s@,
            from@,
            to@,
        ));
    }
    assert(s@.skip(i as int).len() == 0);
    out
}


/// Lower-case form of a string, as `str::to_lowercase` computes it (full
/// Unicode case mapping, which is context-dependent for a few characters,
/// so it is named over the whole string and not per character).
pub uninterp spec fn lowercase(s: Seq<char>) -> Seq<char>;

/// Calls `str::to_lowercase`; the result is `lowercase` of the input. Nothing
/// further is stated of the Unicode mapping itself.
#[verifier::external_body]
pub(crate) fn to_lowercase(s: &str) -> (r: String)
    ensures
        r@ == lowercase(s@),
{
    s.to_lowercase()
}

/// Lower-case form of the characters in `v`.
pub fn lowercase_chars(v: &Vec<char>) -> (r: Vec<char>)
    ensures
        r@ == lowercase(v@),
{
    let s = string_of(v);
    let l = to_lowercase(s.as_str());
    chars_of(l.as_str())
}

/// `s` without one trailing carriage return, if it has one.
pub open spec fn strip_cr(s: Seq<char>) -> Seq<char> {
    if s.len() > 0 && s.last() == '\r' {
        s.drop_last()
    } else {
        s
    }
}

/// Scanning state of `str::lines` over `s`: the completed lines and the
/// characters of the line not yet terminated by a newline.
pub open spec fn lines_state(s: Seq<char>) -> (Seq<Seq<char>>, Seq<char>)
    decreases s.len(),
{
    if s.len() == 0 {
        (seq![], seq![])
    } else {
        let (done, cur) = lines_state(s.drop_last());
        if s.last() == '\n' {
            (done.push(strip_cr(cur)), seq![])
        } else {
            (done, cur.push(s.last()))
        }
    }
}

/// The lines of `s` as `str::lines` yields them: split at `\n`, a `\r`
/// right before a `\n` removed, and no empty last line after a final
/// newline.
pub open spec fn lines(s: Seq<char>) -> Seq<Seq<char>> {
    let (done, cur) = lines_state(s);
    if cur.len() > 0 {
        done.push(cur)
    } else {
        done
    }
}

/// Removes one trailing `\r` from `v`, if present.
fn strip_cr_chars(v: Vec<char>) -> (r: Vec<char>)
    ensures
        r@ == strip_cr(v@),
{
    let mut v = v;
    if v.len() > 0 && v[v.len() - 1] == '\r' {
        v.pop();
    }
    v
}

/// The lines of `text`, with the same splitting as `str::lines`.
pub fn split_lines(text: &str) -> (r: Vec<Vec<char>>)
    ensures
        r@.map_values(|l: Vec<char>| l@) == lines(text@),
{
    let s = chars_of(text);
    let mut done: Vec<Vec<char>> = Vec::new();
    let mut cur: Vec<char> = Vec::new();
    let mut i: usize = 0;
    while i < s.len()
        invariant
            i <= s.len(),
            s@ == text@,
            (done@.map_values(|l: Vec<char>| l@), cur@) == lines_state(s@.take(i as int)),
        decreases s.len() - i,
    {
        let c = s[i];
        assert(s@.take(i + 1 as int).drop_last() == s@.take(i as int));
        if c == '\n' {
            let line = strip_cr_chars(cur);
            done.push(line);
            cur = Vec::new();
        } else {
            cur.push(c);
        }
        i = i + 1;
        assert(done@.map_values(|l: Vec<char>| l@) == lines_state(s@.take(i as int)).0);
    }
    assert(s@.take(i as int) == s@);
    if cur.len() > 0 {
        done.push(cur);
    }
    assert(done@.map_values(|l: Vec<char>| l@) == lines(text@));
    done
}

/// The characters that `trim_end_matches(['\r', ' ', '\t'])` strips.
pub open spec fn is_line_pad(c: char) -> bool {
    c == '\r' || c == ' ' || c == '\t'
}

/// `s` with all trailing `\r`, space and tab characters removed.
pub open spec fn trim_line_end(s: Seq<char>) -> Seq<char>
    decreases s.len(),
{
    if s.len() > 0 && is_line_pad(s.last()) {
        trim_line_end(s.drop_last())
    } else {
        s
    }
}

/// Removes all trailing `\r`, space and tab characters.
pub fn trim_line_end_chars(v: &Vec<char>) -> (r: Vec<char>)
    ensures
        r@ == trim_line_end(v@),
{
    let mut n: usize = v.len();
    assert(v@.take(v.len() as int) == v@);
    while n > 0 && (v[n - 1] == '\r' || v[n - 1] == ' ' || v[n - 1] == '\t')
        invariant
            n <= v.len(),
            trim_line_end(v@) == trim_line_end(v@.take(n as int)),
        decreases n,
    {
        assert(v@.take(n as int).drop_last() == v@.take(n - 1 as int));
        n = n - 1;
    }
    let mut r: Vec<char> = Vec::new();
    let mut j: usize = 0;
    while j < n
        invariant
            j <= n <= v.len(),
            r@ == v@.take(j as int),
        decreases n - j,
    {
        r.push(v[j]);
        j = j + 1;
        assert(v@.take(j as int) == v@.take(j - 1 as int).push(v@[j - 1]));
    }
    r
}

/// `s` with the suffix `p` removed again and again while it ends with it,
/// as `trim_end_matches` does with a string pattern.
pub open spec fn trim_suffix_all(s: Seq<char>, p: Seq<char>) -> Seq<char>
    decreases s.len(),
{
    if p.len() > 0 && ends_with(s, p) {
        trim_suffix_all(s.take(s.len() - p.len()), p)
    } else {
        s
    }
}

/// Removes the suffix `p` repeatedly while `v` ends with it.
pub fn trim_suffix_all_chars(v: &Vec<char>, p: &Vec<char>) -> (r: Vec<char>)
    ensures
        r@ == trim_suffix_all(v@, p@),
{
    let mut cur: Vec<char> = v.clone();
    assert(cur@ == v@);
    if p.len() == 0 {
        return cur;
    }
    while ends_with_chars(&cur, p)
        invariant
            p.len() > 0,
            trim_suffix_all(v@, p@) == trim_suffix_all(cur@, p@),
        decreases cur.len(),
    {
        let keep = cur.len() - p.len();
        cur.truncate(keep);
    }
    cur
}


/// Strings holding the character sequences of `v`, in order.
pub fn strings_of(v: &Vec<Vec<char>>) -> (r: Vec<String>)
    ensures
        r@.map_values(|t: String| t@) == v@.map_values(|t: Vec<char>| t@),
{
    let mut out: Vec<String> = Vec::new();
    let mut i: usize = 0;
    while i < v.len()
        invariant
            i <= v.len(),
            out.len() == i,
            forall|k: int| 0 <= k < i ==> #[trigger] out@[k]@ == v@[k]@,
        decreases v.len() - i,
    {
        let t = string_of(&v[i]);
        out.push(t);
        i = i + 1;
    }
    assert(out@.map_values(|t: String| t@) =~= v@.map_values(|t: Vec<char>| t@));
    out
}


/// Lexicographic order of character sequences by code point, the order in
/// which `String`'s `cmp` puts them.
pub open spec fn lex_lt(a: Seq<char>, b: Seq<char>) -> bool
    decreases a.len(),
{
    if a.len() == 0 {
        b.len() > 0
    } else if b.len() == 0 {
        false
    } else if a[0] != b[0] {
        (a[0] as int) < (b[0] as int)
    } else {
        lex_lt(a.drop_first(), b.drop_first())
    }
}

/// `lex_lt` is irreflexive and asymmetric.
pub proof fn lemma_lex_lt_asymmetric(a: Seq<char>, b: Seq<char>)
    ensures
        !(lex_lt(a, b) && lex_lt(b, a)),
        !lex_lt(a, a),
    decreases a.len(),
{
    if a.len() > 0 && b.len() > 0 && a[0] == b[0] {
        lemma_lex_lt_asymmetric(a.drop_first(), b.drop_first());
    }
    if a.len() > 0 {
        lemma_lex_lt_asymmetric(a.drop_first(), a.drop_first());
    }
}

/// `lex_lt` is transitive.
pub proof fn lemma_lex_lt_transitive(a: Seq<char>, b: Seq<char>, c: Seq<char>)
    requires
        lex_lt(a, b),
        lex_lt(b, c),
    ensures
        lex_lt(a, c),
    decreases a.len(),
{
    if a.len() > 0 && b.len() > 0 && c.len() > 0 && a[0] == b[0] && b[0] == c[0] {
        lemma_lex_lt_transitive(a.drop_first(), b.drop_first(), c.drop_first());
    }
}

/// Any two different sequences are ordered one way or the other.
pub proof fn lemma_lex_lt_total(a: Seq<char>, b: Seq<char>)
    ensures
        a == b || lex_lt(a, b) || lex_lt(b, a),
    decreases a.len(),
{
    if a.len() > 0 && b.len() > 0 {
        if a[0] == b[0] {
            lemma_lex_lt_total(a.drop_first(), b.drop_first());
            if a.drop_first() == b.drop_first() {
                assert(a =~= seq![a[0]] + a.drop_first());
                assert(b =~= seq![b[0]] + b.drop_first());
            }
        } else {
            assert((a[0] as int) != (b[0] as int));
        }
    } else if a.len() == 0 && b.len() == 0 {
        assert(a =~= b);
    }
}

/// Whether `a` comes before `b` in lexicographic code-point order.
pub fn lex_less(a: &Vec<char>, b: &Vec<char>) -> (r: bool)
    ensures
        r == lex_lt(a@, b@),
{
    let mut i: usize = 0;
    assert(a@.skip(0) == a@ && b@.skip(0) == b@);
    loop
        invariant
            i <= a.len(),
            i <= b.len(),
            lex_lt(a@, b@) == lex_lt(a@.skip(i as int), b@.skip(i as int)),
        decreases a.len() - i,
    {
        if i == a.len() {
            return i < b.len();
        }
        if i == b.len() {
            return false;
        }
        if a[i] != b[i] {
            return a[i] < b[i];
        }
        assert(a@.skip(i as int).drop_first() == a@.skip(i + 1 as int));
        assert(b@.skip(i as int).drop_first() == b@.skip(i + 1 as int));
        i = i + 1;
    }
}


/// `a` followed by `b`.
pub fn concat_str(a: &str, b: &str) -> (r: String)
    ensures
        r@ == a@ + b@,
{
    let mut v = chars_of(a);
    let w = chars_of(b);
    append_chars(&mut v, &w);
    string_of(&v)
}

/// Whether `a` and `b` hold the same characters.
pub fn eq_chars(a: &Vec<char>, b: &Vec<char>) -> (r: bool)
    ensures
        r == (a@ == b@),
{
    if a.len() != b.len() {
        return false;
    }
    let mut i: usize = 0;
    while i < a.len()
        invariant
            i <= a.len() == b.len(),
            forall|k: int| 0 <= k < i ==> a@[k] == b@[k],
        decreases a.len() - i,
    {
        if a[i] != b[i] {
            return false;
        }
        i = i + 1;
    }
    assert(a@ =~= b@);
    true
}


/// `s` without its leading white space.
pub open spec fn trim_start_ws(s: Seq<char>) -> Seq<char>
    decreases s.len(),
{
    if s.len() > 0 && spec_is_whitespace(s[0]) {
        trim_start_ws(s.drop_first())
    } else {
        s
    }
}

/// Removes the leading white space of `v`.
pub fn trim_start_ws_chars(v: &Vec<char>) -> (r: Vec<char>)
    ensures
        r@ == trim_start_ws(v@),
{
    let mut n: usize = 0;
    assert(v@.skip(0) == v@);
    while n < v.len() && is_whitespace(v[n])
        invariant
            n <= v.len(),
            trim_start_ws(v@) == trim_start_ws(v@.skip(n as int)),
        decreases v.len() - n,
    {
        assert(v@.skip(n as int).drop_first() == v@.skip(n + 1 as int));
        n = n + 1;
    }
    let mut r: Vec<char> = Vec::new();
    let mut j: usize = n;
    while j < v.len()
        invariant
            n <= j <= v.len(),
            r@ == v@.subrange(n as int, j as int),
        decreases v.len() - j,
    {
        r.push(v[j]);
        j = j + 1;
        assert(v@.subrange(n as int, j as int) == v@.subrange(n as int, j - 1 as int).push(
            v@[j - 1],
        ));
    }
    assert(v@.subrange(n as int, v.len() as int) == v@.skip(n as int));
    r
}

} // verus!
