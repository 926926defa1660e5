//! Character-level text handling shared by the rest of the library: the
//! Unicode white-space class, trimming, line splitting and decimal numbers,
//! each given as a spec function over `Seq<char>` with an executable
//! counterpart.
use vstd::prelude::*;

verus! {

/// Appends `c` to `s`: a wrapper around `String::push`, which std documents as
/// appending the given char to the end of the string.
#[verifier::external_body]
pub(crate) fn push_char(s: &mut String, c: char)
    ensures
        final(s)@ == old(s)@.push(c),
{
    s.push(c)
}

/// The characters of `s`, in order.
pub fn chars_of(s: &str) -> (v: Vec<char>)
    ensures
        v@ == s@,
{
    let mut v: Vec<char> = Vec::new();
    for c in it: s.chars()
        invariant
            v@ == it.seq().take(it.index() as int),
    {
        v.push(c);
    }
    v
}

/// Appends `v[lo..hi]` to `out`.
pub fn push_chars(out: &mut String, v: &[char], lo: usize, hi: usize)
    requires
        lo <= hi <= v@.len(),
    ensures
        final(out)@ == old(out)@ + v@.subrange(lo as int, hi as int),
{
    let mut i: usize = lo;
    while i < hi
        invariant
            lo <= i <= hi <= v@.len(),
            out@ == old(out)@ + v@.subrange(lo as int, i as int),
        decreases hi - i,
    {
        push_char(out, v[i]);
        assert(v@.subrange(lo as int, i + 1) == v@.subrange(lo as int, i as int).push(v@[i as int]));
        i += 1;
    }
}

/// A new string holding `v[lo..hi]`.
pub fn string_from(v: &[char], lo: usize, hi: usize) -> (s: String)
    requires
        lo <= hi <= v@.len(),
    ensures
        s@ == v@.subrange(lo as int, hi as int),
{
    let mut s = String::new();
    push_chars(&mut s, v, lo, hi);
    s
}

/// Appends the whole of `t` to `out`.
pub fn push_str(out: &mut String, t: &str)
    ensures
        final(out)@ == old(out)@ + t@,
{
    let v = chars_of(t);
    push_chars(out, v.as_slice(), 0, v.len());
    assert(v@.subrange(0, v@.len() as int) == v@);
}

/// Unicode `White_Space`: the characters that `char::is_whitespace` accepts.
pub open spec fn is_ws(c: char) -> bool {
    ||| ('\u{9}' <= c && c <= '\u{d}')
    ||| c == ' '
    ||| c == '\u{85}'
    ||| c == '\u{a0}'
    ||| c == '\u{1680}'
    ||| ('\u{2000}' <= c && c <= '\u{200a}')
    ||| c == '\u{2028}'
    ||| c == '\u{2029}'
    ||| c == '\u{202f}'
    ||| c == '\u{205f}'
    ||| c == '\u{3000}'
}

/// Executable form of [`is_ws`].
pub fn is_whitespace(c: char) -> (b: bool)
    ensures
        b == is_ws(c),
{
    ('\u{9}' <= c && c <= '\u{d}') || c == ' ' || c == '\u{85}' || c == '\u{a0}' || c
        == '\u{1680}' || ('\u{2000}' <= c && c <= '\u{200a}') || c == '\u{2028}' || c
        == '\u{2029}' || c == '\u{202f}' || c == '\u{205f}' || c == '\u{3000}'
}

/// A set of characters that trimming removes from the ends of a text.
#[derive(Clone, Copy, PartialEq, Eq, Debug)]
pub enum CharClass {
    /// Unicode white space, as in `str::trim`.
    WhiteSpace,
    /// The quote characters `"` and `'`.
    Quote,
    /// The `#` character.
    Hash,
    /// The `<` character.
    AngleOpen,
    /// The `>` character.
    AngleClose,
}

/// Whether `c` belongs to `class`.
pub open spec fn in_class(class: CharClass, c: char) -> bool {
    match class {
        CharClass::WhiteSpace => is_ws(c),
        CharClass::Quote => c == '"' || c == '\'',
        CharClass::Hash => c == '#',
        CharClass::AngleOpen => c == '<',
        CharClass::AngleClose => c == '>',
    }
}

/// Executable form of [`in_class`].
pub fn is_in_class(class: CharClass, c: char) -> (b: bool)
    ensures
        b == in_class(class, c),
{
    match class {
        CharClass::WhiteSpace => is_whitespace(c),
        CharClass::Quote => c == '"' || c == '\'',
        CharClass::Hash => c == '#',
        CharClass::AngleOpen => c == '<',
        CharClass::AngleClose => c == '>',
    }
}

/// `s` without the characters of `class` at its start.
pub open spec fn strip_start(class: CharClass, s: Seq<char>) -> Seq<char>
    decreases s.len(),
{
    if s.len() > 0 && in_class(class, s[0]) {
        strip_start(class, s.drop_first())
    } else {
        s
    }
}

/// `s` without the characters of `class` at its end.
pub open spec fn strip_end(class: CharClass, s: Seq<char>) -> Seq<char>
    decreases s.len(),
{
    if s.len() > 0 && in_class(class, s.last()) {
        strip_end(class, s.drop_last())
    } else {
        s
    }
}

/// `s` without the characters of `class` at either end
/// (`str::trim_matches` with that class).
pub open spec fn strip(class: CharClass, s: Seq<char>) -> Seq<char> {
    strip_end(class, strip_start(class, s))
}

/// `s` without leading and trailing white space, as `str::trim` gives it.
pub open spec fn trim(s: Seq<char>) -> Seq<char> {
    strip(CharClass::WhiteSpace, s)
}

/// Where `v[lo..hi]` starts once the characters of `class` at its start are
/// dropped.
pub fn strip_start_at(class: CharClass, v: &[char], lo: usize, hi: usize) -> (i: usize)
    requires
        lo <= hi <= v@.len(),
    ensures
        lo <= i <= hi,
        strip_start(class, v@.subrange(lo as int, hi as int)) == v@.subrange(i as int, hi as int),
{
    let mut i: usize = lo;
    while i < hi && is_in_class(class, v[i])
        invariant
            lo <= i <= hi <= v@.len(),
            strip_start(class, v@.subrange(lo as int, hi as int)) == strip_start(
                class,
                v@.subrange(i as int, hi as int),
            ),
        decreases hi - i,
    {
        assert(v@.subrange(i as int, hi as int).drop_first() == v@.subrange(i + 1, hi as int));
        i += 1;
    }
    i
}

/// Where `v[lo..hi]` ends once the characters of `class` at its end are
/// dropped.
pub fn strip_end_at(class: CharClass, v: &[char], lo: usize, hi: usize) -> (j: usize)
    requires
        lo <= hi <= v@.len(),
    ensures
        lo <= j <= hi,
        strip_end(class, v@.subrange(lo as int, hi as int)) == v@.subrange(lo as int, j as int),
{
    let mut j: usize = hi;
    while j > lo && is_in_class(class, v[j - 1])
        invariant
            lo <= j <= hi <= v@.len(),
            strip_end(class, v@.subrange(lo as int, hi as int)) == strip_end(
                class,
                v@.subrange(lo as int, j as int),
            ),
        decreases j - lo,
    {
        assert(v@.subrange(lo as int, j as int).drop_last() == v@.subrange(lo as int, j - 1));
        j -= 1;
    }
    j
}

/// The bounds of `strip(class, v[lo..hi])` inside `v`.
pub fn strip_bounds(class: CharClass, v: &[char], lo: usize, hi: usize) -> (r: (usize, usize))
    requires
        lo <= hi <= v@.len(),
    ensures
        lo <= r.0 <= r.1 <= hi,
        strip(class, v@.subrange(lo as int, hi as int)) == v@.subrange(r.0 as int, r.1 as int),
{
    let a: usize = strip_start_at(class, v, lo, hi);
    let b: usize = strip_end_at(class, v, a, hi);
    (a, b)
}

/// The bounds of `trim(v[lo..hi])` inside `v`.
pub fn trim_bounds(v: &[char], lo: usize, hi: usize) -> (r: (usize, usize))
    requires
        lo <= hi <= v@.len(),
    ensures
        lo <= r.0 <= r.1 <= hi,
        trim(v@.subrange(lo as int, hi as int)) == v@.subrange(r.0 as int, r.1 as int),
{
    strip_bounds(CharClass::WhiteSpace, v, lo, hi)
}

/// `str::trim` on an owned copy.
pub fn trimmed(s: &str) -> (t: String)
    ensures
        t@ == trim(s@),
{
    let v = chars_of(s);
    assert(v@.subrange(0, v@.len() as int) == v@);
    let (a, b) = trim_bounds(v.as_slice(), 0, v.len());
    string_from(v.as_slice(), a, b)
}


/// How many characters of `s` come before its first `c` (all of them if
/// there is none).
pub open spec fn first_of(s: Seq<char>, c: char) -> nat
    decreases s.len(),
{
    if s.len() == 0 {
        0
    } else if s[0] == c {
        0
    } else {
        1 + first_of(s.drop_first(), c)
    }
}

/// `t` without one trailing `'\r'`.
pub open spec fn strip_cr(t: Seq<char>) -> Seq<char> {
    if t.len() > 0 && t.last() == '\r' {
        t.drop_last()
    } else {
        t
    }
}

/// The lines of `s` as `str::lines` yields them: split after each `'\n'`,
/// a `"\r\n"` ending counts as one line ending, and a final empty line is not
/// yielded.
pub open spec fn lines(s: Seq<char>) -> Seq<Seq<char>>
    decreases s.len(),
{
    if s.len() == 0 {
        seq![]
    } else {
        let i = first_of(s, '\n');
        if i >= s.len() {
            seq![s]
        } else {
            seq![strip_cr(s.take(i as int))] + lines(s.skip(i + 1 as int))
        }
    }
}

/// `first_of(s, c)` is the `k` before which `s` has no `c` and at which it
/// has one or ends.
pub proof fn lemma_first_of(s: Seq<char>, c: char, k: int)
    requires
        0 <= k <= s.len(),
        forall|j: int| 0 <= j < k ==> s[j] != c,
        k == s.len() || s[k] == c,
    ensures
        first_of(s, c) == k,
    decreases k,
{
    if k > 0 {
        lemma_first_of(s.drop_first(), c, k - 1);
    }
}

/// The position of the first `c` in `v[lo..hi]`, or `hi` if it has none.
pub fn find_char(v: &[char], lo: usize, hi: usize, c: char) -> (i: usize)
    requires
        lo <= hi <= v@.len(),
    ensures
        lo <= i <= hi,
        i - lo == first_of(v@.subrange(lo as int, hi as int), c),
        forall|j: int| lo <= j < i ==> v@[j] != c,
        i < hi ==> v@[i as int] == c,
{
    let mut i: usize = lo;
    while i < hi && v[i] != c
        invariant
            lo <= i <= hi <= v@.len(),
            forall|j: int| lo <= j < i ==> v@[j] != c,
        decreases hi - i,
    {
        i += 1;
    }
    proof {
        lemma_first_of(v@.subrange(lo as int, hi as int), c, i - lo);
    }
    i
}

/// Whether `a` and `b` are the same text.
pub fn str_eq(a: &str, b: &str) -> (r: bool)
    ensures
        r == (a@ == b@),
{
    String::from_str(a) == String::from_str(b)
}

/// Whether `v[lo..hi]` holds exactly the characters of `t`.
pub fn range_eq(v: &[char], lo: usize, hi: usize, t: &str) -> (b: bool)
    requires
        lo <= hi <= v@.len(),
    ensures
        b == (v@.subrange(lo as int, hi as int) == t@),
{
    let w = chars_of(t);
    if hi - lo != w.len() {
        return false;
    }
    let mut k: usize = 0;
    while k < w.len()
        invariant
            lo <= hi <= v@.len(),
            hi - lo == w@.len(),
            w@ == t@,
            0 <= k <= w@.len(),
            forall|j: int| 0 <= j < k ==> v@[lo + j] == w@[j],
        decreases w@.len() - k,
    {
        if v[lo + k] != w[k] {
            assert(v@.subrange(lo as int, hi as int)[k as int] != t@[k as int]);
            return false;
        }
        k += 1;
    }
    assert(v@.subrange(lo as int, hi as int) == t@);
    true
}

/// The spans `(start, end)` inside `v[lo..hi]` of the lines of that range.
pub fn line_spans(v: &[char], lo: usize, hi: usize) -> (r: Vec<(usize, usize)>)
    requires
        lo <= hi <= v@.len(),
    ensures
        r@.len() == lines(v@.subrange(lo as int, hi as int)).len(),
        forall|k: int|
            0 <= k < r@.len() ==> {
                &&& lo <= (#[trigger] r@[k]).0 <= r@[k].1 <= hi
                &&& v@.subrange(r@[k].0 as int, r@[k].1 as int) == lines(
                    v@.subrange(lo as int, hi as int),
                )[k]
            },
{
    let ghost whole = v@.subrange(lo as int, hi as int);
    let mut r: Vec<(usize, usize)> = Vec::new();
    let ghost mut done: Seq<Seq<char>> = seq![];
    let mut start: usize = lo;
    let mut i: usize = lo;
    while i < hi
        invariant
            lo <= start <= i <= hi <= v@.len(),
            whole == v@.subrange(lo as int, hi as int),
            lines(whole) == done + lines(v@.subrange(start as int, hi as int)),
            r@.len() == done.len(),
            forall|k: int|
                0 <= k < r@.len() ==> {
                    &&& lo <= (#[trigger] r@[k]).0 <= r@[k].1 <= hi
                    &&& v@.subrange(r@[k].0 as int, r@[k].1 as int) == done[k]
                },
            forall|j: int| start <= j < i ==> v@[j] != '\n',
        decreases hi - i,
    {
        if v[i] == '\n' {
            let ghost rest = v@.subrange(start as int, hi as int);
            proof {
                lemma_first_of(rest, '\n', i - start);
                assert(rest.take(i - start) == v@.subrange(start as int, i as int));
                assert(rest.skip(i - start + 1) == v@.subrange(i + 1, hi as int));
            }
            let end: usize = if i > start && v[i - 1] == '\r' {
                i - 1
            } else {
                i
            };
            proof {
                let line = v@.subrange(start as int, i as int);
                if i > start && v@[i - 1] == '\r' {
                    assert(line.drop_last() == v@.subrange(start as int, end as int));
                }
                assert(strip_cr(line) == v@.subrange(start as int, end as int));
                done = done.push(strip_cr(line));
                assert(lines(whole) == done + lines(v@.subrange(i + 1, hi as int)));
            }
            r.push((start, end));
            start = i + 1;
        }
        i += 1;
    }
    if start < hi {
        let ghost rest = v@.subrange(start as int, hi as int);
        proof {
            lemma_first_of(rest, '\n', hi - start);
            done = done.push(rest);
            assert(lines(whole) == done);
        }
        r.push((start, hi));
    } else {
        assert(lines(whole) == done);
    }
    r
}

/// The lines of `s`, as `str::lines` yields them.
pub fn lines_of(s: &str) -> (r: Vec<String>)
    ensures
        r@.len() == lines(s@).len(),
        forall|k: int| 0 <= k < r@.len() ==> (#[trigger] r@[k])@ == lines(s@)[k],
{
    let v = chars_of(s);
    assert(v@.subrange(0, v@.len() as int) == v@);
    let spans = line_spans(v.as_slice(), 0, v.len());
    let mut r: Vec<String> = Vec::new();
    let mut k: usize = 0;
    while k < spans.len()
        invariant
            0 <= k <= spans@.len(),
            v@ == s@,
            spans@.len() == lines(s@).len(),
            forall|m: int|
                0 <= m < spans@.len() ==> {
                    &&& 0 <= (#[trigger] spans@[m]).0 <= spans@[m].1 <= v@.len()
                    &&& v@.subrange(spans@[m].0 as int, spans@[m].1 as int) == lines(s@)[m]
                },
            r@.len() == k,
            forall|m: int| 0 <= m < k ==> (#[trigger] r@[m])@ == lines(s@)[m],
        decreases spans@.len() - k,
    {
        let (a, b) = spans[k];
        r.push(string_from(v.as_slice(), a, b));
        k += 1;
    }
    r
}


/// Lexicographic order on texts, character by character by code point: the
/// order of `String`'s `Ord`, since UTF-8 keeps code-point order.
pub open spec fn text_le(a: Seq<char>, b: Seq<char>) -> bool
    decreases a.len(),
{
    if a.len() == 0 {
        true
    } else if b.len() == 0 {
        false
    } else if a[0] != b[0] {
        a[0] < b[0]
    } else {
        text_le(a.drop_first(), b.drop_first())
    }
}

/// Any two texts are ordered one way or the other.
pub proof fn lemma_text_le_total(a: Seq<char>, b: Seq<char>)
    ensures
        text_le(a, b) || text_le(b, a),
    decreases a.len(),
{
    if a.len() > 0 && b.len() > 0 && a[0] == b[0] {
        lemma_text_le_total(a.drop_first(), b.drop_first());
    } else if a.len() > 0 && b.len() > 0 {
    }
}

/// The order is reflexive.
pub proof fn lemma_text_le_reflexive(a: Seq<char>)
    ensures
        text_le(a, a),
    decreases a.len(),
{
    if a.len() > 0 {
        lemma_text_le_reflexive(a.drop_first());
    }
}

/// The order is transitive.
pub proof fn lemma_text_le_transitive(a: Seq<char>, b: Seq<char>, c: Seq<char>)
    requires
        text_le(a, b),
        text_le(b, c),
    ensures
        text_le(a, c),
    decreases a.len(),
{
    if a.len() > 0 && b.len() > 0 && c.len() > 0 && a[0] == b[0] && b[0] == c[0] {
        lemma_text_le_transitive(a.drop_first(), b.drop_first(), c.drop_first());
    }
}

/// Whether `a <= b` in [`text_le`] order.
pub fn chars_le(a: &[char], b: &[char]) -> (r: bool)
    ensures
        r == text_le(a@, b@),
{
    let mut k: usize = 0;
    assert(a@.skip(0) == a@ && b@.skip(0) == b@);
    while k < a.len() && k < b.len() && a[k] == b[k]
        invariant
            0 <= k <= a@.len(),
            k <= b@.len(),
            text_le(a@, b@) == text_le(a@.skip(k as int), b@.skip(k as int)),
        decreases a@.len() - k,
    {
        assert(a@.skip(k as int).drop_first() == a@.skip(k + 1));
        assert(b@.skip(k as int).drop_first() == b@.skip(k + 1));
        k += 1;
    }
    if k == a.len() {
        true
    } else if k == b.len() {
        false
    } else {
        a[k] < b[k]
    }
}

/// Adding `x` at any position adds it once to the multiset of a sequence.
pub proof fn lemma_insert_to_multiset<A>(s: Seq<A>, i: int, x: A)
    requires
        0 <= i <= s.len(),
    ensures
        s.insert(i, x).to_multiset() =~= s.to_multiset().insert(x),
{
    broadcast use vstd::seq_lib::group_to_multiset_ensures;

    let t = s.insert(i, x);
    assert(t.remove(i) =~= s);
    assert(t[i] == x);
    assert(t.contains(x));
    let m = t.to_multiset();
    assert(m.count(x) > 0);
    assert(m =~= m.remove(x).insert(x));
}


/// Inserting `x` at `pos` adds it to the elements that satisfy `p` right
/// after those before `pos`, when none at or after `pos` satisfies `p` as
/// well; an `x` that does not satisfy `p` changes nothing there.
pub proof fn lemma_insert_filter<A>(before: Seq<A>, pos: int, x: A, p: spec_fn(A) -> bool)
    requires
        0 <= pos <= before.len(),
        p(x) ==> forall|j: int| pos <= j < before.len() ==> !p(#[trigger] before[j]),
    ensures
        before.insert(pos, x).filter(p) == if p(x) {
            before.filter(p).push(x)
        } else {
            before.filter(p)
        },
{
    let a = before.take(pos);
    let b = before.skip(pos);
    assert(before.insert(pos, x) =~= (a + seq![x]) + b);
    assert(before =~= a + b);
    Seq::filter_distributes_over_add(a + seq![x], b, p);
    Seq::filter_distributes_over_add(a, seq![x], p);
    Seq::filter_distributes_over_add(a, b, p);
    let e = Seq::<A>::empty();
    assert(e.filter(p) =~= e) by {
        reveal(Seq::filter);
    }
    assert(seq![x] =~= e.push(x));
    e.lemma_filter_push(x, p);
    if p(x) {
        assert forall|i: int| 0 <= i < b.len() implies !p(b[i]) by {
            assert(b[i] == before[pos + i]);
        }
        b.lemma_all_neg_filter_empty(p);
        assert(b.filter(p) =~= e);
        assert(seq![x].filter(p) =~= seq![x]);
        assert((a.filter(p) + seq![x]) + e =~= a.filter(p).push(x));
        assert(a.filter(p) + e =~= a.filter(p));
    } else {
        assert(seq![x].filter(p) =~= e);
        assert(a.filter(p) + e =~= a.filter(p));
    }
}

/// The decimal digit `d` (0 to 9) as a character.
pub open spec fn digit_char(d: nat) -> char {
    ((d + 48) as u32) as char
}

/// The decimal representation of `n`, without leading zeros.
pub open spec fn decimal(n: nat) -> Seq<char>
    decreases n,
{
    if n < 10 {
        seq![digit_char(n)]
    } else {
        decimal(n / 10).push(digit_char(n % 10))
    }
}

/// Ten to the power `k`.
pub open spec fn pow10(k: nat) -> nat
    decreases k,
{
    if k == 0 {
        1
    } else {
        10 * pow10((k - 1) as nat)
    }
}

/// The decimal representation of `n` is made of digits, and has at most `k`
/// of them when `n` is below ten to the power `k`.
pub proof fn lemma_decimal_shape(n: nat, k: nat)
    requires
        k >= 1,
        n < pow10(k),
    ensures
        decimal(n).len() <= k,
        forall|i: int| 0 <= i < decimal(n).len() ==> is_digit(#[trigger] decimal(n)[i]),
    decreases n,
{
    if n >= 10 {
        let m = n / 10;
        assert(k >= 2) by {
            if k == 1 {
                assert(pow10(1) == 10) by {
                    reveal_with_fuel(pow10, 2);
                }
            }
        }
        assert(m < pow10((k - 1) as nat)) by (nonlinear_arith)
            requires
                m == n / 10,
                n < pow10(k),
                pow10(k) == 10 * pow10((k - 1) as nat),
        ;
        lemma_decimal_shape(m, (k - 1) as nat);
        let d = digit_char(n % 10);
        assert(is_digit(d));
        assert forall|i: int| 0 <= i < decimal(n).len() implies is_digit(#[trigger] decimal(n)[i]) by {
            if i < decimal(m).len() {
                assert(decimal(n)[i] == decimal(m)[i]);
            }
        }
    } else {
        assert(is_digit(digit_char(n)));
    }
}

/// Appends the decimal representation of `n` to `out`.
pub fn push_decimal(out: &mut String, n: u128)
    ensures
        final(out)@ == old(out)@ + decimal(n as nat),
{
    let mut digits: Vec<char> = Vec::new();
    let mut m: u128 = n;
    while m >= 10
        invariant
            decimal(n as nat) == decimal(m as nat) + digits@.reverse(),
        decreases m,
    {
        let d: u128 = m % 10;
        let c = ((d as u8) + 48u8) as char;
        assert(c == digit_char(d as nat));
        let ghost before = digits@;
        digits.push(c);
        assert(digits@.reverse() == seq![c] + before.reverse());
        assert(decimal(m as nat) == decimal((m / 10) as nat).push(c));
        m = m / 10;
    }
    let c = ((m as u8) + 48u8) as char;
    assert(c == digit_char(m as nat));
    assert(decimal(m as nat) == seq![c]);
    assert(decimal(n as nat)[0] == c);
    assert(digits@.reverse().take(0) == Seq::<char>::empty());
    push_char(out, c);
    assert(out@ =~= old(out)@ + seq![decimal(n as nat)[0]] + digits@.reverse().take(0));
    assert(decimal(n as nat) =~= seq![decimal(n as nat)[0]] + digits@.reverse());
    let mut k: usize = digits.len();
    while k > 0
        invariant
            0 <= k <= digits@.len(),
            final_prefix(out@, old(out)@, n as nat, digits@, k as int),
        decreases k,
    {
        k -= 1;
        let ghost before = out@;
        push_char(out, digits[k]);
        assert(digits@.reverse().take(digits@.len() - k) == digits@.reverse().take(
            digits@.len() - k - 1,
        ).push(digits@[k as int]));
    }
    assert(digits@.reverse().take(digits@.len() as int) == digits@.reverse());
}

/// How far [`push_decimal`] has got: `out` holds `start`, the leading digit
/// of `n`, and the first `digits.len() - k` of the other digits.
pub open spec fn final_prefix(out: Seq<char>, start: Seq<char>, n: nat, digits: Seq<char>, k: int) -> bool {
    let rest = digits.reverse();
    &&& decimal(n) == seq![decimal(n)[0]] + rest
    &&& out == start + seq![decimal(n)[0]] + rest.take(digits.len() - k)
}

/// The decimal representation of `n`.
pub fn decimal_string(n: u128) -> (s: String)
    ensures
        s@ == decimal(n as nat),
{
    let mut s = String::new();
    push_decimal(&mut s, n);
    s
}


/// Whether `c` is an ASCII decimal digit.
pub open spec fn is_digit(c: char) -> bool {
    '0' <= c && c <= '9'
}

/// The value of a string of decimal digits.
pub open spec fn digits_value(s: Seq<char>) -> nat
    decreases s.len(),
{
    if s.len() == 0 {
        0
    } else {
        digits_value(s.drop_last()) * 10 + ((s.last() as u32) - 48) as nat
    }
}

/// `s` without one leading `+`.
pub open spec fn unsigned_body(s: Seq<char>) -> Seq<char> {
    if s.len() > 0 && s[0] == '+' {
        s.drop_first()
    } else {
        s
    }
}

/// The number that `s` spells as `from_str` reads an unsigned integer: an
/// optional `+`, then at least one decimal digit and nothing else, with a
/// value of at most `max`.
pub open spec fn parse_unsigned(s: Seq<char>, max: nat) -> Option<nat> {
    let body = unsigned_body(s);
    if body.len() > 0 && (forall|i: int| 0 <= i < body.len() ==> is_digit(#[trigger] body[i]))
        && digits_value(body) <= max {
        Some(digits_value(body))
    } else {
        None
    }
}

proof fn lemma_digits_value_grows(s: Seq<char>, k: int)
    requires
        0 <= k <= s.len(),
        forall|i: int| 0 <= i < s.len() ==> is_digit(#[trigger] s[i]),
    ensures
        digits_value(s.take(k)) <= digits_value(s),
    decreases s.len() - k,
{
    if k < s.len() {
        lemma_digits_value_grows(s, k + 1);
        assert(s.take(k + 1).drop_last() == s.take(k));
        let x = digits_value(s.take(k));
        let y = digits_value(s.take(k + 1));
        assert(y == x * 10 + ((s.take(k + 1).last() as u32) - 48) as nat);
        assert(x * 10 >= x) by (nonlinear_arith)
            requires
                x >= 0,
        ;
    } else {
        assert(s.take(k) == s);
    }
}

/// Reads `s` as an unsigned number of at most `max`, as `from_str` does for
/// the unsigned integer types.
pub fn parse_decimal(s: &str, max: u64) -> (r: Option<u64>)
    ensures
        match r {
            Some(n) => parse_unsigned(s@, max as nat) == Some(n as nat),
            None => parse_unsigned(s@, max as nat) is None,
        },
{
    let v = chars_of(s);
    let lo: usize = if v.len() > 0 && v[0] == '+' {
        1
    } else {
        0
    };
    let ghost body = unsigned_body(s@);
    assert(body == v@.skip(lo as int));
    if lo == v.len() {
        return None;
    }
    let mut k: usize = lo;
    while k < v.len()
        invariant
            lo <= k <= v@.len(),
            body == v@.skip(lo as int),
            body == unsigned_body(s@),
            forall|i: int| lo <= i < k ==> is_digit(#[trigger] v@[i]),
        decreases v@.len() - k,
    {
        if !('0' <= v[k] && v[k] <= '9') {
            assert(!is_digit(body[k - lo]));
            return None;
        }
        k += 1;
    }
    assert forall|i: int| 0 <= i < body.len() implies is_digit(#[trigger] body[i]) by {
        assert(body[i] == v@[lo + i]);
    }
    let mut acc: u64 = 0;
    let mut k: usize = lo;
    while k < v.len()
        invariant
            lo <= k <= v@.len(),
            body == v@.skip(lo as int),
            body == unsigned_body(s@),
            forall|i: int| 0 <= i < body.len() ==> is_digit(#[trigger] body[i]),
            acc == digits_value(body.take(k - lo)),
            acc <= max,
        decreases v@.len() - k,
    {
        assert(body[k - lo] == v@[k as int]);
        assert(is_digit(body[k - lo]));
        let d: u64 = ((v[k] as u32) - 48) as u64;
        assert(body.take(k - lo + 1).drop_last() == body.take(k - lo));
        assert(body.take(k - lo + 1).last() == v@[k as int]);
        if acc > max / 10 {
            proof {
                assert(acc * 10 > max) by (nonlinear_arith)
                    requires
                        acc > max / 10,
                ;
                lemma_digits_value_grows(body, k - lo + 1);
            }
            return None;
        }
        assert(acc * 10 <= max) by (nonlinear_arith)
            requires
                acc <= max / 10,
        ;
        if d > max - acc * 10 {
            proof {
                lemma_digits_value_grows(body, k - lo + 1);
            }
            return None;
        }
        acc = acc * 10 + d;
        k += 1;
    }
    assert(body.take(body.len() as int) == body);
    Some(acc)
}


/// Whether `p` occurs in `s` at position `i`.
pub open spec fn occurs_at(s: Seq<char>, p: Seq<char>, i: int) -> bool {
    0 <= i && i + p.len() <= s.len() && s.subrange(i, i + p.len()) == p
}

/// Whether `p` occurs in `s` (the empty text occurs everywhere).
pub open spec fn contains_text(s: Seq<char>, p: Seq<char>) -> bool {
    exists|i: int| occurs_at(s, p, i)
}

/// The first position of `v[from..]` at which `p` occurs, if any.
pub fn find_text(v: &[char], p: &[char], from: usize) -> (r: Option<usize>)
    requires
        from <= v@.len(),
    ensures
        match r {
            Some(i) => from <= i && occurs_at(v@, p@, i as int) && forall|j: int|
                from <= j < i ==> !occurs_at(v@, p@, j),
            None => forall|j: int| from <= j ==> !occurs_at(v@, p@, j),
        },
{
    if p.len() > v.len() {
        return None;
    }
    let n: usize = v.len();
    let last = n - p.len();
    let mut i: usize = from;
    while i <= last
        invariant
            from <= i,
            n == v@.len(),
            p@.len() <= v@.len(),
            last == v@.len() - p@.len(),
            forall|j: int| from <= j < i ==> !occurs_at(v@, p@, j),
        decreases last + 1 - i,
    {
        let mut k: usize = 0;
        let mut same = true;
        while same && k < p.len()
            invariant
                0 <= k <= p@.len(),
                n == v@.len(),
                i <= last,
                last == v@.len() - p@.len(),
                p@.len() <= v@.len(),
                i + p@.len() <= v@.len(),
                forall|m: int| 0 <= m < k ==> v@[i + m] == p@[m],
                !same ==> k < p@.len() && v@[i + k] != p@[k as int],
            decreases p@.len() - k + if same {
                1int
            } else {
                0int
            },
        {
            if v[i + k] == p[k] {
                k += 1;
            } else {
                same = false;
            }
        }
        if k == p.len() {
            assert(v@.subrange(i as int, i + p@.len()) == p@);
            return Some(i);
        }
        assert(v@.subrange(i as int, i + p@.len())[k as int] != p@[k as int]);
        i += 1;
    }
    None
}

/// Whether `p` occurs in `s`.
pub fn contains(s: &str, p: &str) -> (b: bool)
    ensures
        b == contains_text(s@, p@),
{
    let v = chars_of(s);
    let w = chars_of(p);
    match find_text(v.as_slice(), w.as_slice(), 0) {
        Some(_) => true,
        None => false,
    }
}

/// How many times `p` occurs in `s` without overlapping, counted from the
/// left as `str::matches` finds them; the empty pattern matches at each of
/// the `s.len() + 1` character boundaries.
pub open spec fn match_count(s: Seq<char>, p: Seq<char>) -> nat
    decreases s.len(),
{
    if p.len() == 0 {
        (s.len() + 1) as nat
    } else if s.len() < p.len() {
        0
    } else if s.take(p.len() as int) == p {
        1 + match_count(s.skip(p.len() as int), p)
    } else {
        match_count(s.drop_first(), p)
    }
}

/// Skipping a stretch with no occurrence does not change the count.
pub proof fn lemma_match_count_skip(s: Seq<char>, p: Seq<char>, k: int)
    requires
        p.len() > 0,
        0 <= k <= s.len(),
        forall|j: int| 0 <= j < k ==> !occurs_at(s, p, j),
    ensures
        match_count(s, p) == match_count(s.skip(k), p),
    decreases k,
{
    if k == 0 {
        assert(s.skip(0) == s);
    } else {
        if s.len() < p.len() {
            assert(s.skip(k).len() < p.len());
        } else {
            assert(!occurs_at(s, p, 0));
            assert(s.subrange(0, p.len() as int) == s.take(p.len() as int));
            assert forall|j: int| 0 <= j < k - 1 implies !occurs_at(s.drop_first(), p, j) by {
                assert(!occurs_at(s, p, j + 1));
                if j + p.len() <= s.len() - 1 {
                    assert(s.drop_first().subrange(j, j + p.len()) == s.subrange(j + 1, j + 1 + p.len()));
                }
            }
            lemma_match_count_skip(s.drop_first(), p, k - 1);
            assert(s.drop_first().skip(k - 1) == s.skip(k));
        }
    }
}

/// The first position at which `p` occurs in `s` (`s.len()` if it does not).
pub open spec fn first_occurrence(s: Seq<char>, p: Seq<char>) -> int
    decreases s.len(),
{
    if s.len() < p.len() {
        s.len() as int
    } else if s.take(p.len() as int) == p {
        0
    } else if s.len() == 0 {
        0
    } else {
        1 + first_occurrence(s.drop_first(), p)
    }
}

/// `first_occurrence(s, p)` is the `k` at which `p` occurs with no
/// occurrence before it.
pub proof fn lemma_first_occurrence(s: Seq<char>, p: Seq<char>, k: int)
    requires
        occurs_at(s, p, k),
        forall|j: int| 0 <= j < k ==> !occurs_at(s, p, j),
    ensures
        first_occurrence(s, p) == k,
    decreases k,
{
    assert(s.subrange(0, p.len() as int) == s.take(p.len() as int));
    if k > 0 {
        assert(!occurs_at(s, p, 0));
        assert(s.drop_first().subrange(k - 1, k - 1 + p.len()) == s.subrange(k, k + p.len()));
        assert forall|j: int| 0 <= j < k - 1 implies !occurs_at(s.drop_first(), p, j) by {
            assert(!occurs_at(s, p, j + 1));
            if j + p.len() <= s.len() - 1 {
                assert(s.drop_first().subrange(j, j + p.len()) == s.subrange(j + 1, j + 1 + p.len()));
            }
        }
        lemma_first_occurrence(s.drop_first(), p, k - 1);
    }
}


/// The number of bytes of the UTF-8 encoding of `c`.
pub open spec fn utf8_width(c: char) -> nat {
    let u = c as u32;
    if u <= 0x7f {
        1
    } else if u <= 0x7ff {
        2
    } else if u <= 0xffff {
        3
    } else {
        4
    }
}

/// The number of bytes of the UTF-8 encoding of `s`: what `str::len` gives.
pub open spec fn bytes_len(s: Seq<char>) -> nat
    decreases s.len(),
{
    if s.len() == 0 {
        0
    } else {
        utf8_width(s[0]) + bytes_len(s.drop_first())
    }
}

/// [`bytes_len`] is the length of vstd's UTF-8 encoding of the text.
pub proof fn lemma_bytes_len(s: Seq<char>)
    ensures
        bytes_len(s) == vstd::utf8::encode_utf8(s).len(),
    decreases s.len(),
{
    if s.len() > 0 {
        lemma_bytes_len(s.drop_first());
        vstd::utf8::char_is_scalar(s[0]);
        let u = s[0] as u32;
        assert(vstd::utf8::encode_scalar(u).len() == utf8_width(s[0]));
    }
}

/// Executable form of [`utf8_width`].
pub fn char_utf8_width(c: char) -> (w: usize)
    ensures
        w == utf8_width(c),
{
    let u = c as u32;
    if u <= 0x7f {
        1
    } else if u <= 0x7ff {
        2
    } else if u <= 0xffff {
        3
    } else {
        4
    }
}

/// How many characters from the start of `s` fit in `limit` bytes.
pub open spec fn fit_chars(s: Seq<char>, limit: int) -> nat
    decreases s.len(),
{
    if s.len() == 0 {
        0
    } else if utf8_width(s[0]) <= limit {
        1 + fit_chars(s.drop_first(), limit - utf8_width(s[0]))
    } else {
        0
    }
}

/// How many characters from `v[0..]` fit in `limit` bytes, and whether the
/// whole of `v` takes fewer than `limit` bytes.
pub fn fit_prefix(v: &[char], limit: usize) -> (r: (usize, bool))
    ensures
        r.0 == fit_chars(v@, limit as int),
        r.0 <= v@.len(),
        r.1 == (bytes_len(v@) < limit),
{
    let mut acc: usize = 0;
    let mut k: usize = 0;
    let mut stopped = false;
    assert(v@.skip(0) == v@);
    while !stopped && k < v.len()
        invariant
            0 <= k <= v@.len(),
            acc <= limit,
            bytes_len(v@) == acc + bytes_len(v@.skip(k as int)),
            fit_chars(v@, limit as int) == k + fit_chars(v@.skip(k as int), limit - acc),
            stopped ==> k < v@.len() && utf8_width(v@[k as int]) > limit - acc,
        decreases v@.len() - k + if stopped {
            0int
        } else {
            1int
        },
    {
        let w = char_utf8_width(v[k]);
        assert(v@.skip(k as int).drop_first() == v@.skip(k + 1));
        assert(v@.skip(k as int)[0] == v@[k as int]);
        if w > limit - acc {
            stopped = true;
        } else {
            acc = acc + w;
            k += 1;
        }
    }
    proof {
        if stopped {
            lemma_bytes_len_at_least(v@.skip(k as int));
        }
    }
    (k, !stopped && acc < limit)
}

/// The bytes of a text are those of its first `k` characters and those of
/// the rest.
pub proof fn lemma_bytes_len_split(s: Seq<char>, k: int)
    requires
        0 <= k <= s.len(),
    ensures
        bytes_len(s.take(k)) + bytes_len(s.skip(k)) == bytes_len(s),
    decreases k,
{
    if k > 0 {
        lemma_bytes_len_split(s.drop_first(), k - 1);
        assert(s.take(k).drop_first() == s.drop_first().take(k - 1));
        assert(s.skip(k) == s.drop_first().skip(k - 1));
    } else {
        assert(s.take(0).len() == 0);
        assert(s.skip(0) == s);
    }
}

proof fn lemma_bytes_len_at_least(s: Seq<char>)
    requires
        s.len() > 0,
    ensures
        bytes_len(s) >= utf8_width(s[0]),
{
}


/// Two texts ordered both ways are equal.
pub proof fn lemma_text_le_antisymmetric(a: Seq<char>, b: Seq<char>)
    requires
        text_le(a, b),
        text_le(b, a),
    ensures
        a == b,
    decreases a.len(),
{
    if a.len() > 0 && b.len() > 0 {
        lemma_text_le_antisymmetric(a.drop_first(), b.drop_first());
        assert(a == seq![a[0]] + a.drop_first());
        assert(b == seq![b[0]] + b.drop_first());
    }
}

/// [`text_le`] as a relation.
pub open spec fn text_order() -> spec_fn(Seq<char>, Seq<char>) -> bool {
    |a: Seq<char>, b: Seq<char>| text_le(a, b)
}

/// [`text_le`] is a total order.
pub proof fn lemma_text_order_total()
    ensures
        vstd::relations::total_ordering(text_order()),
{
    assert forall|a: Seq<char>| #[trigger] text_order()(a, a) by {
        lemma_text_le_reflexive(a);
    }
    assert forall|a: Seq<char>, b: Seq<char>|
        #[trigger] text_order()(a, b) && #[trigger] text_order()(b, a) implies a == b by {
        lemma_text_le_antisymmetric(a, b);
    }
    assert forall|a: Seq<char>, b: Seq<char>, c: Seq<char>|
        #[trigger] text_order()(a, b) && #[trigger] text_order()(b, c) implies text_order()(a, c) by {
        lemma_text_le_transitive(a, b, c);
    }
    assert forall|a: Seq<char>, b: Seq<char>|
        #[trigger] text_order()(a, b) || #[trigger] text_order()(b, a) by {
        lemma_text_le_total(a, b);
    }
}

/// The texts of a sequence of strings.
pub open spec fn texts(v: Seq<String>) -> Seq<Seq<char>> {
    v.map_values(|s: String| s@)
}

/// The strings of `v` in [`text_le`] order, as `sort` orders strings.
pub fn sort_texts(v: Vec<String>) -> (r: Vec<String>)
    ensures
        texts(r@) == texts(v@).sort_by(text_order()),
{
    broadcast use vstd::seq_lib::group_to_multiset_ensures;

    let ghost input = texts(v@);
    let mut out: Vec<String> = Vec::new();
    let mut rest = v;
    let ghost mut taken: Seq<Seq<char>> = seq![];
    while rest.len() > 0
        invariant
            input == taken + texts(rest@),
            texts(out@).to_multiset() == taken.to_multiset(),
            vstd::relations::sorted_by(texts(out@), text_order()),
        decreases rest@.len(),
    {
        let ghost rest_before = rest@;
        let x = rest.remove(0);
        let key = chars_of(x.as_str());
        let mut pos: usize = 0;
        while pos < out.len() && chars_le(chars_of(out[pos].as_str()).as_slice(), key.as_slice())
            invariant
                0 <= pos <= out@.len(),
                key@ == x@,
                forall|i: int| 0 <= i < pos ==> text_le(out@[i]@, x@),
            decreases out@.len() - pos,
        {
            pos += 1;
        }
        let ghost before = texts(out@);
        let ghost xv = x@;
        proof {
            lemma_insert_to_multiset(before, pos as int, xv);
            taken.to_multiset_ensures();
            assert(texts(rest_before) == seq![xv] + texts(rest@));
            assert(input == taken.push(xv) + texts(rest@));
            if pos < before.len() {
                lemma_text_le_total(xv, before[pos as int]);
            }
            assert(forall|i: int| 0 <= i < pos ==> text_le(before[i], xv));
        }
        out.insert(pos, x);
        assert(texts(out@) == before.insert(pos as int, xv));
        assert forall|i: int, j: int|
            0 <= i < j < before.len() + 1 implies #[trigger] text_order()(
            before.insert(pos as int, xv)[i],
            before.insert(pos as int, xv)[j],
        ) by {
            before.insert_ensures(pos as int, xv);
            let t = before.insert(pos as int, xv);
            if i < pos && j > pos {
                assert(t[i] == before[i]);
                assert(t[j] == before[j - 1]);
                assert(text_order()(before[i], before[j - 1]));
            } else if i == pos {
                assert(t[j] == before[j - 1]);
                if j - 1 > pos {
                    assert(text_order()(before[pos as int], before[j - 1]));
                    lemma_text_le_transitive(xv, before[pos as int], before[j - 1]);
                }
            } else if j == pos {
                assert(t[i] == before[i]);
            } else if j < pos {
                assert(t[i] == before[i]);
                assert(t[j] == before[j]);
                assert(text_order()(before[i], before[j]));
            } else {
                assert(t[i] == before[i - 1]);
                assert(t[j] == before[j - 1]);
                assert(text_order()(before[i - 1], before[j - 1]));
            }
        }
        proof {
            taken = taken.push(xv);
        }
    }
    proof {
        assert(input == taken);
        lemma_text_order_total();
        input.lemma_sort_by_ensures(text_order());
        vstd::seq_lib::lemma_sorted_unique(texts(out@), input.sort_by(text_order()), text_order());
    }
    out
}

/// `parts` joined by `sep`.
pub open spec fn join(parts: Seq<Seq<char>>, sep: Seq<char>) -> Seq<char>
    decreases parts.len(),
{
    if parts.len() == 0 {
        seq![]
    } else if parts.len() == 1 {
        parts[0]
    } else {
        join(parts.drop_last(), sep) + sep + parts.last()
    }
}

/// The strings of `parts` joined by `sep`.
pub fn join_strings(parts: &[String], sep: &str) -> (r: String)
    ensures
        r@ == join(parts@.map_values(|s: String| s@), sep@),
{
    let ghost ps = parts@.map_values(|s: String| s@);
    let mut out = String::new();
    let mut k: usize = 0;
    while k < parts.len()
        invariant
            0 <= k <= parts@.len(),
            ps == parts@.map_values(|s: String| s@),
            out@ == join(ps.take(k as int), sep@),
        decreases parts@.len() - k,
    {
        if k > 0 {
            push_str(&mut out, sep);
        }
        push_str(&mut out, parts[k].as_str());
        assert(ps.take(k + 1).drop_last() == ps.take(k as int));
        assert(ps.take(k + 1).last() == parts@[k as int]@);
        k += 1;
    }
    assert(ps.take(parts@.len() as int) == ps);
    out
}


/// The decimal representation of the integer `n`, with a `-` if negative.
pub open spec fn signed_decimal(n: int) -> Seq<char> {
    if n < 0 {
        "-"@ + decimal((-n) as nat)
    } else {
        decimal(n as nat)
    }
}

/// Appends the decimal representation of `n` to `out`.
pub fn push_signed(out: &mut String, n: i64)
    ensures
        final(out)@ == old(out)@ + signed_decimal(n as int),
{
    if n < 0 {
        push_str(out, "-");
        let m: u128 = (0i128 - (n as i128)) as u128;
        push_decimal(out, m);
    } else {
        push_decimal(out, n as u128);
    }
}

/// `n` spaces.
pub open spec fn spaces(n: nat) -> Seq<char> {
    Seq::new(n, |i: int| ' ')
}

/// `s` right-aligned in `width` characters: spaces before it, as `{:>width}`
/// formats it.
pub open spec fn pad_left(s: Seq<char>, width: nat) -> Seq<char> {
    if s.len() < width {
        spaces((width - s.len()) as nat) + s
    } else {
        s
    }
}

/// Appends `t` right-aligned in `width` characters to `out`.
pub fn push_padded(out: &mut String, t: &str, width: usize)
    ensures
        final(out)@ == old(out)@ + pad_left(t@, width as nat),
{
    let n = chars_of(t).len();
    let ghost start = out@;
    if n < width {
        let mut k: usize = 0;
        while k < width - n
            invariant
                n < width,
                0 <= k <= width - n,
                out@ == start + spaces(k as nat),
            decreases width - n - k,
        {
            push_char(out, ' ');
            assert(spaces((k + 1) as nat) == spaces(k as nat).push(' '));
            k += 1;
        }
    }
    push_str(out, t);
}

} // verus!
