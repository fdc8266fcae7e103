//! Character-level text helpers shared by the parsers and formatters.

use vstd::prelude::*;
use vstd::std_specs::iter::IteratorSpec;

verus! {

broadcast use vstd::string::group_string_axioms;

/// View of a list of strings as character sequences.
pub open spec fn strings_view(v: Seq<String>) -> Seq<Seq<char>> {
    Seq::new(v.len(), |i: int| v[i]@)
}

/// Appends one character to a string.
///
/// Trusted: calls `String::push`, whose documentation says it appends the
/// given `char` to the end of the string.
#[verifier::external_body]
pub(crate) fn push_char(s: &mut String, c: char)
    ensures
        final(s)@ == old(s)@.push(c),
{
    s.push(c);
}

/// The characters of a string slice, in order.
pub fn chars_of(s: &str) -> (r: Vec<char>)
    ensures
        r@ == s@,
{
    let mut out: Vec<char> = Vec::new();
    let mut it = s.chars();
    let ghost all = s@;
    loop
        invariant
            it.obeys_prophetic_iter_laws(),
            all == s@,
            out@ + it.remaining() == all,
            it.decrease() is Some,
        ensures
            out@ == all,
        decreases it.decrease()->0,
    {
        let ghost before = it.remaining();
        match it.next() {
            Some(c) => {
                out.push(c);
                assert(out@ + it.remaining() =~= all) by {
                    assert(before =~= seq![c] + it.remaining());
                }
            },
            None => {
                assert(out@ =~= all);
                break ;
            },
        }
    }
    out
}

/// A string made of the given characters.
pub fn string_from_chars(cs: &Vec<char>) -> (r: String)
    ensures
        r@ == cs@,
{
    let mut out = String::new();
    let mut i: usize = 0;
    while i < cs.len()
        invariant
            0 <= i <= cs@.len(),
            out@ == cs@.take(i as int),
        decreases cs@.len() - i,
    {
        push_char(&mut out, cs[i]);
        i = i + 1;
        assert(out@ =~= cs@.take(i as int));
    }
    assert(cs@.take(cs@.len() as int) =~= cs@);
    out
}

/// Character-wise equality of two string slices.
pub fn str_eq(a: &str, b: &str) -> (r: bool)
    ensures
        r == (a@ == b@),
{
    let x = chars_of(a);
    let y = chars_of(b);
    if x.len() != y.len() {
        return false;
    }
    let mut i: usize = 0;
    while i < x.len()
        invariant
            x@ == a@,
            y@ == b@,
            x@.len() == y@.len(),
            0 <= i <= x@.len(),
            forall|j: int| 0 <= j < i ==> x@[j] == y@[j],
        decreases x@.len() - i,
    {
        if x[i] != y[i] {
            return false;
        }
        i = i + 1;
    }
    assert(a@ =~= b@);
    true
}

/// Unicode `White_Space` (what `char::is_whitespace` tests).
pub open spec fn spec_is_ws(c: char) -> bool {
    let v = c as u32;
    (0x09 <= v <= 0x0D) || v == 0x20 || v == 0x85 || v == 0xA0 || v == 0x1680 || (0x2000 <= v
        <= 0x200A) || v == 0x2028 || v == 0x2029 || v == 0x202F || v == 0x205F || v == 0x3000
}

/// Whether `c` is Unicode white space.
pub fn is_ws(c: char) -> (r: bool)
    ensures
        r == spec_is_ws(c),
{
    let v = c as u32;
    (0x09 <= v && v <= 0x0D) || v == 0x20 || v == 0x85 || v == 0xA0 || v == 0x1680 || (0x2000
        <= v && v <= 0x200A) || v == 0x2028 || v == 0x2029 || v == 0x202F || v == 0x205F || v
        == 0x3000
}

/// ASCII lower-casing of one character (other characters unchanged).
pub open spec fn spec_ascii_lower(c: char) -> char {
    if 'A' <= c <= 'Z' {
        ((c as u32) + 32) as char
    } else {
        c
    }
}

/// ASCII lower-casing of a character sequence.
pub open spec fn spec_ascii_lower_seq(s: Seq<char>) -> Seq<char> {
    Seq::new(s.len(), |i: int| spec_ascii_lower(s[i]))
}

/// ASCII lower-casing of one character.
pub fn ascii_lower(c: char) -> (r: char)
    ensures
        r == spec_ascii_lower(c),
{
    if 'A' <= c && c <= 'Z' {
        let v = (c as u32) + 32;
        proof {
            assert(0x61 <= v <= 0x7A);
        }
        char_from_ascii(v)
    } else {
        c
    }
}

/// The character of an ASCII code point.
fn char_from_ascii(v: u32) -> (r: char)
    requires
        v < 0x80,
    ensures
        r == v as char,
{
    let b = v as u8;
    b as char
}

/// Index of the first occurrence of `c` in `s` (or `s.len()`).
pub open spec fn first_index_of(s: Seq<char>, c: char) -> int
    decreases s.len(),
{
    if s.len() == 0 {
        0
    } else if s[0] == c {
        0
    } else {
        1 + first_index_of(s.drop_first(), c)
    }
}

/// The part of `s` before the first `c` (all of `s` when there is none).
pub open spec fn before_first(s: Seq<char>, c: char) -> Seq<char> {
    s.take(first_index_of(s, c))
}

pub proof fn lemma_first_index_bounds(s: Seq<char>, c: char)
    ensures
        0 <= first_index_of(s, c) <= s.len(),
        forall|j: int| 0 <= j < first_index_of(s, c) ==> s[j] != c,
        first_index_of(s, c) < s.len() ==> s[first_index_of(s, c)] == c,
    decreases s.len(),
{
    if s.len() > 0 && s[0] != c {
        lemma_first_index_bounds(s.drop_first(), c);
        assert forall|j: int| 0 <= j < first_index_of(s, c) implies s[j] != c by {
            if j > 0 {
                assert(s[j] == s.drop_first()[j - 1]);
            }
        }
    }
}

/// The prefix of `cs` before the first `c`.
pub fn prefix_before(cs: &Vec<char>, c: char) -> (r: Vec<char>)
    ensures
        r@ == before_first(cs@, c),
{
    proof {
        lemma_first_index_bounds(cs@, c);
    }
    let mut out: Vec<char> = Vec::new();
    let mut i: usize = 0;
    while i < cs.len() && cs[i] != c
        invariant
            0 <= i <= cs@.len(),
            i <= first_index_of(cs@, c),
            0 <= first_index_of(cs@, c) <= cs@.len(),
            forall|j: int| 0 <= j < first_index_of(cs@, c) ==> cs@[j] != c,
            first_index_of(cs@, c) < cs@.len() ==> cs@[first_index_of(cs@, c)] == c,
            out@ == cs@.take(i as int),
        decreases cs@.len() - i,
    {
        out.push(cs[i]);
        i = i + 1;
        assert(out@ =~= cs@.take(i as int));
    }
    out
}

/// Index of the first character of `s` at or after `from` satisfying white space
/// (`s.len()` if none).
pub open spec fn next_ws(s: Seq<char>, from: int) -> int
    decreases s.len() - from,
{
    if from >= s.len() {
        s.len() as int
    } else if spec_is_ws(s[from]) {
        from
    } else {
        next_ws(s, from + 1)
    }
}

/// Index of the first non-white-space character of `s` at or after `from`.
pub open spec fn next_non_ws(s: Seq<char>, from: int) -> int
    decreases s.len() - from,
{
    if from >= s.len() {
        s.len() as int
    } else if !spec_is_ws(s[from]) {
        from
    } else {
        next_non_ws(s, from + 1)
    }
}

/// The first white-space separated token of `s` (empty when there is none) —
/// what `split_whitespace().next().unwrap_or("")` yields.
pub open spec fn first_token(s: Seq<char>) -> Seq<char> {
    let a = next_non_ws(s, 0);
    s.subrange(a, next_ws(s, a))
}

pub proof fn lemma_next_ws_bounds(s: Seq<char>, from: int)
    requires
        0 <= from,
    ensures
        from <= next_ws(s, from) || from >= s.len(),
        next_ws(s, from) <= s.len(),
        from <= s.len() ==> from <= next_ws(s, from),
        forall|j: int| from <= j < next_ws(s, from) ==> !spec_is_ws(#[trigger] s[j]),
    decreases s.len() - from,
{
    if from < s.len() && !spec_is_ws(s[from]) {
        lemma_next_ws_bounds(s, from + 1);
    }
}

pub proof fn lemma_next_non_ws_bounds(s: Seq<char>, from: int)
    requires
        0 <= from,
    ensures
        next_non_ws(s, from) <= s.len(),
        from <= s.len() ==> from <= next_non_ws(s, from),
        forall|j: int| from <= j < next_non_ws(s, from) ==> spec_is_ws(#[trigger] s[j]),
    decreases s.len() - from,
{
    if from < s.len() && spec_is_ws(s[from]) {
        lemma_next_non_ws_bounds(s, from + 1);
    }
}

/// First white-space separated token of a character sequence.
pub fn first_token_of(cs: &Vec<char>) -> (r: Vec<char>)
    ensures
        r@ == first_token(cs@),
{
    let n = cs.len();
    let mut a: usize = 0;
    while a < n && is_ws(cs[a])
        invariant
            0 <= a <= n,
            n == cs@.len(),
            next_non_ws(cs@, 0) == next_non_ws(cs@, a as int),
        decreases n - a,
    {
        a = a + 1;
    }
    let mut b: usize = a;
    let mut out: Vec<char> = Vec::new();
    while b < n && !is_ws(cs[b])
        invariant
            a <= b <= n,
            n == cs@.len(),
            next_non_ws(cs@, 0) == a,
            next_ws(cs@, a as int) == next_ws(cs@, b as int),
            out@ == cs@.subrange(a as int, b as int),
        decreases n - b,
    {
        out.push(cs[b]);
        b = b + 1;
        assert(out@ =~= cs@.subrange(a as int, b as int));
    }
    out
}

/// ASCII lower-casing of every character.
pub fn ascii_lower_all(cs: &Vec<char>) -> (r: Vec<char>)
    ensures
        r@ == spec_ascii_lower_seq(cs@),
{
    let mut out: Vec<char> = Vec::new();
    let mut i: usize = 0;
    while i < cs.len()
        invariant
            0 <= i <= cs@.len(),
            out@ == spec_ascii_lower_seq(cs@.take(i as int)),
        decreases cs@.len() - i,
    {
        let c = ascii_lower(cs[i]);
        out.push(c);
        i = i + 1;
        assert(out@ =~= spec_ascii_lower_seq(cs@.take(i as int)));
    }
    assert(cs@.take(cs@.len() as int) =~= cs@);
    out
}

/// Whether two character vectors are equal.
pub fn chars_eq(a: &Vec<char>, b: &Vec<char>) -> (r: bool)
    ensures
        r == (a@ == b@),
{
    if a.len() != b.len() {
        return false;
    }
    let mut i: usize = 0;
    while i < a.len()
        invariant
            a@.len() == b@.len(),
            0 <= i <= a@.len(),
            forall|j: int| 0 <= j < i ==> a@[j] == b@[j],
        decreases a@.len() - i,
    {
        if a[i] != b[i] {
            return false;
        }
        i = i + 1;
    }
    assert(a@ =~= b@);
    true
}

/// Whether `cs` equals the characters of the string slice `s`.
pub fn chars_eq_str(cs: &Vec<char>, s: &str) -> (r: bool)
    ensures
        r == (cs@ == s@),
{
    let t = chars_of(s);
    chars_eq(cs, &t)
}

/// Index of the first `'\n'` of `s` at or after `from` (`s.len()` if none).
pub open spec fn next_newline(s: Seq<char>, from: int) -> int
    decreases s.len() - from,
{
    if from >= s.len() {
        s.len() as int
    } else if s[from] == '\n' {
        from
    } else {
        next_newline(s, from + 1)
    }
}

pub proof fn lemma_next_newline_bounds(s: Seq<char>, from: int)
    requires
        0 <= from <= s.len(),
    ensures
        from <= next_newline(s, from) <= s.len(),
        next_newline(s, from) < s.len() ==> s[next_newline(s, from)] == '\n',
    decreases s.len() - from,
{
    if from < s.len() && s[from] != '\n' {
        lemma_next_newline_bounds(s, from + 1);
    }
}

/// The line of `s` that starts at `from` and ends at `end` (a `'\n'` or the
/// end of `s`): a `'\r'` right before a `'\n'` is dropped with it.
pub open spec fn line_body(s: Seq<char>, from: int, end: int) -> Seq<char> {
    if end < s.len() && end > from && s[end - 1] == '\r' {
        s.subrange(from, end - 1)
    } else {
        s.subrange(from, end)
    }
}

/// The lines of `s` from position `from` on, as `str::lines` yields them:
/// split at `'\n'` (or `"\r\n"`), with no empty line after a final newline.
pub open spec fn lines_from(s: Seq<char>, from: int) -> Seq<Seq<char>>
    decreases s.len() - from,
{
    if from < 0 || from >= s.len() {
        Seq::empty()
    } else {
        let end = next_newline(s, from);
        if end < from || end >= s.len() {
            seq![line_body(s, from, end)]
        } else {
            seq![line_body(s, from, end)] + lines_from(s, end + 1)
        }
    }
}

/// The lines of `s`.
pub open spec fn spec_lines(s: Seq<char>) -> Seq<Seq<char>> {
    lines_from(s, 0)
}

/// The lines of a character sequence, as `str::lines` splits them.
pub fn split_lines(cs: &Vec<char>) -> (r: Vec<String>)
    ensures
        strings_view(r@) == spec_lines(cs@),
{
    let n = cs.len();
    let mut out: Vec<String> = Vec::new();
    let mut p: usize = 0;
    while p < n
        invariant
            n == cs@.len(),
            0 <= p <= n,
            strings_view(out@) + lines_from(cs@, p as int) == spec_lines(cs@),
        decreases n - p,
    {
        proof {
            lemma_next_newline_bounds(cs@, p as int);
        }
        let mut e: usize = p;
        while e < n && cs[e] != '\n'
            invariant
                n == cs@.len(),
                p <= e <= n,
                next_newline(cs@, p as int) == next_newline(cs@, e as int),
            decreases n - e,
        {
            e = e + 1;
        }
        let stop = if e < n && e > p && cs[e - 1] == '\r' { e - 1 } else { e };
        let mut line: Vec<char> = Vec::new();
        let mut k: usize = p;
        while k < stop
            invariant
                p <= k <= stop,
                stop <= n,
                n == cs@.len(),
                line@ == cs@.subrange(p as int, k as int),
            decreases stop - k,
        {
            line.push(cs[k]);
            k = k + 1;
            assert(line@ =~= cs@.subrange(p as int, k as int));
        }
        let l = string_from_chars(&line);
        let ghost before = strings_view(out@);
        out.push(l);
        assert(line@ == line_body(cs@, p as int, e as int));
        assert(strings_view(out@) =~= before.push(line_body(cs@, p as int, e as int)));
        if e < n && e + 1 < n {
            assert(lines_from(cs@, p as int) == seq![line_body(cs@, p as int, e as int)] + lines_from(cs@, e + 1));
            assert(before + lines_from(cs@, p as int) =~= strings_view(out@) + lines_from(cs@, e + 1));
            p = e + 1;
        } else {
            assert(lines_from(cs@, p as int) =~= seq![line_body(cs@, p as int, e as int)]) by {
                if e < n {
                    assert(lines_from(cs@, e + 1) =~= Seq::<Seq<char>>::empty());
                }
            }
            assert(lines_from(cs@, n as int) =~= Seq::<Seq<char>>::empty());
            assert(before + lines_from(cs@, p as int) =~= strings_view(out@) + lines_from(cs@, n as int));
            p = n;
        }
    }
    assert(lines_from(cs@, p as int) =~= Seq::<Seq<char>>::empty());
    assert(strings_view(out@) + lines_from(cs@, p as int) =~= strings_view(out@));
    out
}

/// Whether a character sequence is empty or white space only.
pub open spec fn spec_blank(s: Seq<char>) -> bool {
    forall|j: int| 0 <= j < s.len() ==> spec_is_ws(#[trigger] s[j])
}

/// Whether `s` is white space only (what `s.trim().is_empty()` tests).
pub fn is_blank(s: &str) -> (r: bool)
    ensures
        r == spec_blank(s@),
{
    let cs = chars_of(s);
    let mut i: usize = 0;
    while i < cs.len()
        invariant
            cs@ == s@,
            0 <= i <= cs@.len(),
            forall|j: int| 0 <= j < i ==> spec_is_ws(#[trigger] cs@[j]),
        decreases cs@.len() - i,
    {
        if !is_ws(cs[i]) {
            return false;
        }
        i = i + 1;
    }
    true
}

/// Whether the first non-white-space character of `s` is `c`.
pub open spec fn starts_after_ws(s: Seq<char>, c: char) -> bool {
    next_non_ws(s, 0) < s.len() && s[next_non_ws(s, 0)] == c
}

/// Whether `s.trim_start().starts_with(c)`.
pub fn trimmed_starts_with(s: &str, c: char) -> (r: bool)
    ensures
        r == starts_after_ws(s@, c),
{
    let cs = chars_of(s);
    let n = cs.len();
    let mut a: usize = 0;
    while a < n && is_ws(cs[a])
        invariant
            0 <= a <= n,
            n == cs@.len(),
            cs@ == s@,
            next_non_ws(cs@, 0) == next_non_ws(cs@, a as int),
        decreases n - a,
    {
        a = a + 1;
    }
    a < n && cs[a] == c
}

/// End (exclusive) of the last non-white-space character of `s` before `to`
/// (0 when there is none).
pub open spec fn end_non_ws(s: Seq<char>, to: int) -> int
    decreases to,
{
    if to <= 0 {
        0
    } else if !spec_is_ws(s[to - 1]) {
        to
    } else {
        end_non_ws(s, to - 1)
    }
}

pub proof fn lemma_end_non_ws_bounds(s: Seq<char>, to: int)
    requires
        0 <= to <= s.len(),
    ensures
        0 <= end_non_ws(s, to) <= to,
        end_non_ws(s, to) > 0 ==> !spec_is_ws(s[end_non_ws(s, to) - 1]),
        forall|j: int| end_non_ws(s, to) <= j < to ==> spec_is_ws(#[trigger] s[j]),
    decreases to,
{
    if to > 0 && spec_is_ws(s[to - 1]) {
        lemma_end_non_ws_bounds(s, to - 1);
    }
}

/// `s` without leading and trailing white space (what `str::trim` yields).
pub open spec fn spec_trim(s: Seq<char>) -> Seq<char> {
    let a = next_non_ws(s, 0);
    if a >= s.len() {
        Seq::empty()
    } else {
        s.subrange(a, end_non_ws(s, s.len() as int))
    }
}

/// `s` without leading and trailing white space.
pub fn trim_chars(s: &str) -> (r: String)
    ensures
        r@ == spec_trim(s@),
{
    let cs = chars_of(s);
    let n = cs.len();
    proof {
        lemma_next_non_ws_bounds(cs@, 0);
        lemma_end_non_ws_bounds(cs@, n as int);
    }
    let mut a: usize = 0;
    while a < n && is_ws(cs[a])
        invariant
            0 <= a <= n,
            n == cs@.len(),
            cs@ == s@,
            next_non_ws(cs@, 0) == next_non_ws(cs@, a as int),
        decreases n - a,
    {
        a = a + 1;
    }
    if a >= n {
        return String::new();
    }
    let mut b: usize = n;
    while b > a && is_ws(cs[b - 1])
        invariant
            a < n,
            a < b <= n,
            n == cs@.len(),
            cs@ == s@,
            end_non_ws(cs@, n as int) == end_non_ws(cs@, b as int),
            !spec_is_ws(cs@[a as int]),
        decreases b,
    {
        b = b - 1;
    }
    assert(next_non_ws(cs@, a as int) == a);
    assert(end_non_ws(cs@, b as int) == b);
    let mut out: Vec<char> = Vec::new();
    let mut k: usize = a;
    while k < b
        invariant
            a <= k <= b,
            b <= n,
            n == cs@.len(),
            out@ == cs@.subrange(a as int, k as int),
        decreases b - k,
    {
        out.push(cs[k]);
        k = k + 1;
        assert(out@ =~= cs@.subrange(a as int, k as int));
    }
    string_from_chars(&out)
}

// ── code order ──────────────────────────────────────────────────

/// Code-point (lexicographic) order of character sequences: the order of
/// `str` comparison, since UTF-8 keeps code-point order byte for byte.
pub open spec fn code_lt(a: Seq<char>, b: Seq<char>) -> bool
    decreases a.len(),
{
    if a.len() == 0 {
        b.len() > 0
    } else if b.len() == 0 {
        false
    } else if a[0] != b[0] {
        (a[0] as u32) < (b[0] as u32)
    } else {
        code_lt(a.drop_first(), b.drop_first())
    }
}

/// No sequence comes before itself.
pub proof fn lemma_code_lt_irreflexive(a: Seq<char>)
    ensures
        !code_lt(a, a),
    decreases a.len(),
{
    if a.len() > 0 {
        lemma_code_lt_irreflexive(a.drop_first());
    }
}

/// The code order is transitive.
pub proof fn lemma_code_lt_transitive(a: Seq<char>, b: Seq<char>, c: Seq<char>)
    requires
        code_lt(a, b),
        code_lt(b, c),
    ensures
        code_lt(a, c),
    decreases a.len(),
{
    if a.len() > 0 && b.len() > 0 && c.len() > 0 && a[0] == b[0] && b[0] == c[0] {
        lemma_code_lt_transitive(a.drop_first(), b.drop_first(), c.drop_first());
    }
}

/// Of two different sequences, one comes first.
pub proof fn lemma_code_lt_total(a: Seq<char>, b: Seq<char>)
    ensures
        a == b || code_lt(a, b) || code_lt(b, a),
    decreases a.len(),
{
    if a.len() > 0 && b.len() > 0 && a[0] == b[0] {
        lemma_code_lt_total(a.drop_first(), b.drop_first());
        if a.drop_first() == b.drop_first() {
            assert forall|i: int| 0 <= i < a.len() implies a[i] == b[i] by {
                if i > 0 {
                    assert(a[i] == a.drop_first()[i - 1]);
                    assert(b[i] == b.drop_first()[i - 1]);
                }
            }
            assert(a =~= b);
        }
    } else if a.len() == 0 && b.len() == 0 {
        assert(a =~= b);
    } else if a.len() > 0 && b.len() > 0 {
        vstd::utf8::char_u32_cast(a[0], a[0] as u32);
        vstd::utf8::char_u32_cast(b[0], b[0] as u32);
    }
}

/// Whether `a` comes before `b` in code-point order.
pub fn str_lt(a: &str, b: &str) -> (r: bool)
    ensures
        r == code_lt(a@, b@),
{
    let x = chars_of(a);
    let y = chars_of(b);
    let mut i: usize = 0;
    assert(x@.skip(0) =~= x@);
    assert(y@.skip(0) =~= y@);
    while i < x.len() && i < y.len()
        invariant
            0 <= i <= x@.len(),
            i <= y@.len(),
            x@ == a@,
            y@ == b@,
            code_lt(x@.skip(i as int), y@.skip(i as int)) == code_lt(a@, b@),
        decreases x@.len() - i,
    {
        assert(x@.skip(i as int)[0] == x@[i as int]);
        assert(y@.skip(i as int)[0] == y@[i as int]);
        if x[i] != y[i] {
            return (x[i] as u32) < (y[i] as u32);
        }
        assert(x@.skip(i as int).drop_first() =~= x@.skip(i + 1));
        assert(y@.skip(i as int).drop_first() =~= y@.skip(i + 1));
        i = i + 1;
    }
    i == x.len() && i < y.len()
}

/// Whether the sequences are in code-point order (equal ones may repeat).
pub open spec fn codes_sorted(s: Seq<Seq<char>>) -> bool {
    forall|i: int, j: int| 0 <= i < j < s.len() ==> !code_lt(#[trigger] s[j], #[trigger] s[i])
}

/// The strings sorted in code-point order (what `sort` on `String`s gives).
pub fn sort_codes(v: Vec<String>) -> (r: Vec<String>)
    ensures
        r@.len() == v@.len(),
        strings_view(r@).to_multiset() == strings_view(v@).to_multiset(),
        codes_sorted(strings_view(r@)),
{
    let ghost vv = strings_view(v@);
    let mut out: Vec<String> = Vec::new();
    let mut i: usize = 0;
    assert(vv.take(0) =~= Seq::<Seq<char>>::empty());
    assert(strings_view(out@) =~= Seq::<Seq<char>>::empty());
    while i < v.len()
        invariant
            vv == strings_view(v@),
            0 <= i <= v@.len(),
            out@.len() == i,
            strings_view(out@).to_multiset() == vv.take(i as int).to_multiset(),
            codes_sorted(strings_view(out@)),
        decreases v@.len() - i,
    {
        let x = v[i].clone();
        let ghost s = strings_view(out@);
        let mut k: usize = 0;
        while k < out.len() && !str_lt(x.as_str(), out[k].as_str())
            invariant
                s == strings_view(out@),
                0 <= k <= out@.len(),
                forall|j: int| 0 <= j < k ==> !code_lt(x@, #[trigger] s[j]),
            decreases out@.len() - k,
        {
            assert(s[k as int] == out@[k as int]@);
            k = k + 1;
        }
        proof {
            if k < out@.len() {
                assert(s[k as int] == out@[k as int]@);
            }
        }
        out.insert(k, x);
        let ghost n = strings_view(out@);
        assert(n =~= s.insert(k as int, x@));
        proof {
            vstd::seq_lib::to_multiset_insert(s, k as int, x@);
            assert(vv.take(i + 1) =~= vv.take(i as int).push(x@));
            vstd::seq_lib::to_multiset_build(vv.take(i as int), x@);
            assert forall|a: int, b: int| 0 <= a < b < n.len() implies !code_lt(
                #[trigger] n[b],
                #[trigger] n[a],
            ) by {
                if a < k && b < k {
                    assert(n[a] == s[a] && n[b] == s[b]);
                } else if a > k && b > k {
                    assert(n[a] == s[a - 1] && n[b] == s[b - 1]);
                } else if a < k && b > k {
                    assert(n[a] == s[a] && n[b] == s[b - 1]);
                } else if a == k {
                    assert(n[a] == x@ && n[b] == s[b - 1]);
                    if code_lt(s[b - 1], x@) {
                        assert(k < s.len());
                        if b - 1 == k {
                            lemma_code_lt_transitive(x@, s[k as int], x@);
                            lemma_code_lt_irreflexive(x@);
                        } else {
                            lemma_code_lt_transitive(s[b - 1], x@, s[k as int]);
                        }
                    }
                } else {
                    assert(b == k);
                    assert(n[a] == s[a] && n[b] == x@);
                }
            }
        }
        i = i + 1;
    }
    assert(vv.take(v@.len() as int) =~= vv);
    out
}

/// Whether `s` holds no white space.
pub open spec fn no_ws(s: Seq<char>) -> bool {
    forall|i: int| 0 <= i < s.len() ==> !spec_is_ws(#[trigger] s[i])
}

/// Skipping non-white-space characters does not move the next white space.
pub proof fn lemma_next_ws_skip(s: Seq<char>, from: int, k: int)
    requires
        0 <= from <= k <= s.len(),
        forall|j: int| from <= j < k ==> !spec_is_ws(#[trigger] s[j]),
    ensures
        next_ws(s, from) == next_ws(s, k),
    decreases k - from,
{
    if from < k {
        lemma_next_ws_skip(s, from + 1, k);
    }
}

/// A sequence without white space is its own first token.
pub proof fn lemma_token_is_own_first_token(tok: Seq<char>)
    requires
        no_ws(tok),
    ensures
        first_token(tok) == tok,
{
    lemma_next_ws_skip(tok, 0, tok.len() as int);
    assert(next_non_ws(tok, 0) == 0);
    assert(tok.subrange(0, tok.len() as int) =~= tok);
}

/// The first token holds no white space.
pub proof fn lemma_first_token_no_ws(s: Seq<char>)
    ensures
        no_ws(first_token(s)),
{
    lemma_next_non_ws_bounds(s, 0);
    let a = next_non_ws(s, 0);
    lemma_next_ws_bounds(s, a);
    assert forall|i: int| 0 <= i < first_token(s).len() implies !spec_is_ws(#[trigger] first_token(s)[i]) by {
        assert(first_token(s)[i] == s[a + i]);
    }
}

/// `first_index_of` is the first position holding `c` (or the length).
pub proof fn lemma_first_index_is(s: Seq<char>, c: char, k: int)
    requires
        0 <= k <= s.len(),
        forall|j: int| 0 <= j < k ==> #[trigger] s[j] != c,
        k < s.len() ==> s[k] == c,
    ensures
        first_index_of(s, c) == k,
    decreases k,
{
    if k > 0 {
        assert forall|j: int| 0 <= j < k - 1 implies #[trigger] s.drop_first()[j] != c by {
            assert(s.drop_first()[j] == s[j + 1]);
        }
        lemma_first_index_is(s.drop_first(), c, k - 1);
    }
}

/// ASCII lower-casing changes no character into or out of `@` or white
/// space, and doing it twice is doing it once.
pub proof fn lemma_ascii_lower_char(c: char)
    ensures
        (spec_ascii_lower(c) == '@') == (c == '@'),
        spec_is_ws(spec_ascii_lower(c)) == spec_is_ws(c),
        spec_ascii_lower(spec_ascii_lower(c)) == spec_ascii_lower(c),
{
    if 'A' <= c <= 'Z' {
        let v = (c as u32) + 32;
        assert(97 <= v <= 122);
        vstd::utf8::char_u32_cast(spec_ascii_lower(c), spec_ascii_lower(c) as u32);
        assert(spec_ascii_lower(c) as u32 == v);
    }
}


// ── character removal ───────────────────────────────────────────

/// `s` with every occurrence of `c` taken out (what `str::replace(c, "")` yields).
pub open spec fn without_char(s: Seq<char>, c: char) -> Seq<char>
    decreases s.len(),
{
    if s.len() == 0 {
        Seq::empty()
    } else if s.last() == c {
        without_char(s.drop_last(), c)
    } else {
        without_char(s.drop_last(), c).push(s.last())
    }
}

/// `s` with every occurrence of `c` taken out.
pub fn remove_char(s: &str, c: char) -> (r: String)
    ensures
        r@ == without_char(s@, c),
{
    let cs = chars_of(s);
    let mut out: Vec<char> = Vec::new();
    let mut i: usize = 0;
    assert(cs@.take(0) =~= Seq::<char>::empty());
    while i < cs.len()
        invariant
            0 <= i <= cs@.len(),
            out@ == without_char(cs@.take(i as int), c),
        decreases cs@.len() - i,
    {
        assert(cs@.take(i + 1).drop_last() =~= cs@.take(i as int));
        if cs[i] != c {
            out.push(cs[i]);
        }
        i = i + 1;
    }
    assert(cs@.take(cs@.len() as int) =~= cs@);
    string_from_chars(&out)
}

} // verus!
