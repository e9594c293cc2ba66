//! Character-level text operations shared by the other modules.

use vstd::prelude::*;
use vstd::string::StringExecFns;

verus! {

/// Calls `String::push`, which appends one character at the end.
#[verifier::external_body]
pub(crate) fn push_char(s: &mut String, c: char)
    ensures
        final(s)@ == old(s)@.push(c),
{
    s.push(c)
}

/// `str::eq` compares two string slices character by character.
pub assume_specification[ <str as PartialEq>::eq ](s: &str, other: &str) -> (res: bool)
    ensures
        res == (s@ == other@),
;

/// Whether two string slices hold the same characters.
pub fn same_text(a: &str, b: &str) -> (r: bool)
    ensures
        r == (a@ == b@),
{
    *a == *b
}

/// The characters of `s`, in order.
pub fn to_chars(s: &str) -> (r: Vec<char>)
    ensures
        r@ == s@,
{
    let mut out: Vec<char> = Vec::new();
    for c in it: s.chars()
        invariant
            out@ == s@.take(it.index()),
            0 <= it.index() <= s@.len(),
            it.seq() == s@,
    {
        assert(s@.take(it.index() + 1) =~= s@.take(it.index()).push(c));
        out.push(c);
    }
    assert(s@.take(s@.len() as int) =~= s@);
    out
}

/// The text made of `chars[from..to]`.
pub fn text_between(chars: &Vec<char>, from: usize, to: usize) -> (r: String)
    requires
        from <= to <= chars@.len(),
    ensures
        r@ == chars@.subrange(from as int, to as int),
{
    let mut out = String::new();
    assert(out@ =~= chars@.subrange(from as int, from as int));
    for i in from..to
        invariant
            from <= to <= chars@.len(),
            out@ == chars@.subrange(from as int, i as int),
    {
        push_char(&mut out, chars[i]);
        assert(out@ =~= chars@.subrange(from as int, i + 1));
    }
    out
}

/// The text made of all of `chars`.
pub fn to_text(chars: &Vec<char>) -> (r: String)
    ensures
        r@ == chars@,
{
    let out = text_between(chars, 0, chars.len());
    assert(chars@.subrange(0, chars@.len() as int) =~= chars@);
    out
}

/// A copy of a list of strings.
pub fn clone_texts(parts: &Vec<String>) -> (r: Vec<String>)
    ensures
        r.deep_view() == parts.deep_view(),
{
    let mut out: Vec<String> = Vec::new();
    for i in 0..parts.len()
        invariant
            out@.len() == i,
            forall|k: int| 0 <= k < i ==> (#[trigger] out@[k])@ == parts@[k]@,
    {
        out.push(parts[i].clone());
    }
    assert(out.deep_view() =~= parts.deep_view());
    out
}

/// Whether `needle` is one of `parts`.
pub fn contains_text(parts: &Vec<String>, needle: &str) -> (r: bool)
    ensures
        r == parts.deep_view().contains(needle@),
{
    for i in 0..parts.len()
        invariant
            forall|k: int| 0 <= k < i ==> (#[trigger] parts@[k])@ != needle@,
    {
        if same_text(parts[i].as_str(), needle) {
            assert(parts.deep_view()[i as int] == needle@);
            return true;
        }
    }
    assert forall|k: int| 0 <= k < parts.deep_view().len() implies parts.deep_view()[k]
        != needle@ by {
        assert(parts@[k]@ != needle@);
    }
    false
}

// ---------------------------------------------------------------------------
// Joining
// ---------------------------------------------------------------------------

/// `parts` with `sep` between each two neighbours.
pub open spec fn joined(parts: Seq<Seq<char>>, sep: Seq<char>) -> Seq<char>
    decreases parts.len(),
{
    if parts.len() == 0 {
        Seq::empty()
    } else if parts.len() == 1 {
        parts[0]
    } else {
        joined(parts.drop_last(), sep) + sep + parts.last()
    }
}

/// Joins `parts`, putting `sep` between each two neighbours.
pub fn join(parts: &Vec<String>, sep: &str) -> (r: String)
    ensures
        r@ == joined(parts.deep_view(), sep@),
{
    let mut out = String::new();
    let ghost all = parts.deep_view();
    for i in 0..parts.len()
        invariant
            all == parts.deep_view(),
            out@ == joined(all.take(i as int), sep@),
    {
        assert(all.take(i + 1).drop_last() =~= all.take(i as int));
        if i > 0 {
            out.append(sep);
        }
        out.append(parts[i].as_str());
    }
    assert(all.take(all.len() as int) =~= all);
    out
}

// ---------------------------------------------------------------------------
// Searching
// ---------------------------------------------------------------------------

/// Index of the first `c` in `t`, or `t.len()` when there is none.
pub open spec fn first_index(t: Seq<char>, c: char) -> int
    decreases t.len(),
{
    if t.len() == 0 || t[0] == c {
        0
    } else {
        1 + first_index(t.drop_first(), c)
    }
}

/// `first_index` is the least index that holds `c`, or the length.
pub proof fn lemma_first_index(t: Seq<char>, c: char)
    ensures
        0 <= first_index(t, c) <= t.len(),
        forall|k: int| 0 <= k < first_index(t, c) ==> t[k] != c,
        first_index(t, c) < t.len() ==> t[first_index(t, c)] == c,
    decreases t.len(),
{
    if t.len() > 0 && t[0] != c {
        let rest = t.drop_first();
        lemma_first_index(rest, c);
        assert forall|k: int| 0 <= k < first_index(t, c) implies t[k] != c by {
            if k > 0 {
                assert(rest[k - 1] == t[k]);
            }
        }
    }
}

/// An index that holds `c`, with no `c` before it, is the first index.
pub proof fn lemma_first_index_is(t: Seq<char>, c: char, i: int)
    requires
        0 <= i <= t.len(),
        forall|k: int| 0 <= k < i ==> t[k] != c,
        i < t.len() ==> t[i] == c,
    ensures
        first_index(t, c) == i,
{
    lemma_first_index(t, c);
}

/// Index of the last `c` in `t`, or -1 when there is none.
pub open spec fn last_index(t: Seq<char>, c: char) -> int
    decreases t.len(),
{
    if t.len() == 0 || t.last() == c {
        t.len() - 1
    } else {
        last_index(t.drop_last(), c)
    }
}

/// `last_index` is the greatest index that holds `c`, or -1.
pub proof fn lemma_last_index(t: Seq<char>, c: char)
    ensures
        -1 <= last_index(t, c) < t.len(),
        forall|k: int| last_index(t, c) < k < t.len() ==> t[k] != c,
        last_index(t, c) >= 0 ==> t[last_index(t, c)] == c,
    decreases t.len(),
{
    if t.len() > 0 && t.last() != c {
        let rest = t.drop_last();
        lemma_last_index(rest, c);
        assert forall|k: int| last_index(t, c) < k < t.len() implies t[k] != c by {
            if k < rest.len() {
                assert(rest[k] == t[k]);
            }
        }
    }
}

/// An index that holds `c`, with no `c` behind it, is the last index.
pub proof fn lemma_last_index_is(t: Seq<char>, c: char, i: int)
    requires
        -1 <= i < t.len(),
        forall|k: int| i < k < t.len() ==> t[k] != c,
        i >= 0 ==> t[i] == c,
    ensures
        last_index(t, c) == i,
{
    lemma_last_index(t, c);
}

/// Whether `t` begins with `prefix`.
pub open spec fn starts_with(t: Seq<char>, prefix: Seq<char>) -> bool {
    prefix.len() <= t.len() && t.take(prefix.len() as int) == prefix
}

/// Whether `chars` begins with `prefix`.
pub fn chars_start_with(chars: &Vec<char>, prefix: &str) -> (r: bool)
    ensures
        r == starts_with(chars@, prefix@),
{
    let want = to_chars(prefix);
    if want.len() > chars.len() {
        return false;
    }
    for i in 0..want.len()
        invariant
            want@ == prefix@,
            want@.len() <= chars@.len(),
            forall|k: int| 0 <= k < i ==> chars@[k] == want@[k],
    {
        if chars[i] != want[i] {
            assert(chars@.take(prefix@.len() as int)[i as int] != prefix@[i as int]);
            return false;
        }
    }
    assert(chars@.take(prefix@.len() as int) =~= prefix@);
    true
}

// ---------------------------------------------------------------------------
// White space
// ---------------------------------------------------------------------------

/// The characters with the Unicode `White_Space` property.
pub open spec fn white_space(c: char) -> bool {
    ||| '\u{0009}' <= c <= '\u{000D}'
    ||| c == '\u{0020}'
    ||| c == '\u{0085}'
    ||| c == '\u{00A0}'
    ||| c == '\u{1680}'
    ||| '\u{2000}' <= c <= '\u{200A}'
    ||| c == '\u{2028}'
    ||| c == '\u{2029}'
    ||| c == '\u{202F}'
    ||| c == '\u{205F}'
    ||| c == '\u{3000}'
}

/// Whether `c` has the Unicode `White_Space` property.
pub fn is_white_space(c: char) -> (r: bool)
    ensures
        r == white_space(c),
{
    (c >= '\u{0009}' && c <= '\u{000D}') || c == '\u{0020}' || c == '\u{0085}' || c == '\u{00A0}'
        || c == '\u{1680}' || (c >= '\u{2000}' && c <= '\u{200A}') || c == '\u{2028}' || c
        == '\u{2029}' || c == '\u{202F}' || c == '\u{205F}' || c == '\u{3000}'
}

/// Whether `t` holds nothing but white space.
pub open spec fn blank(t: Seq<char>) -> bool {
    forall|k: int| 0 <= k < t.len() ==> white_space(#[trigger] t[k])
}

/// Whether `t` holds nothing but white space.
pub fn is_blank(t: &str) -> (r: bool)
    ensures
        r == blank(t@),
{
    let chars = to_chars(t);
    for i in 0..chars.len()
        invariant
            chars@ == t@,
            forall|k: int| 0 <= k < i ==> white_space(#[trigger] t@[k]),
    {
        if !is_white_space(chars[i]) {
            assert(!white_space(t@[i as int]));
            return false;
        }
    }
    true
}

/// `t` without its leading white space.
pub open spec fn trimmed_start(t: Seq<char>) -> Seq<char>
    decreases t.len(),
{
    if t.len() > 0 && white_space(t[0]) {
        trimmed_start(t.drop_first())
    } else {
        t
    }
}

/// `t` without its trailing white space.
pub open spec fn trimmed_end(t: Seq<char>) -> Seq<char>
    decreases t.len(),
{
    if t.len() > 0 && white_space(t.last()) {
        trimmed_end(t.drop_last())
    } else {
        t
    }
}

/// `t` without the white space at its two ends.
pub open spec fn trimmed(t: Seq<char>) -> Seq<char> {
    trimmed_end(trimmed_start(t))
}

/// `chars[from..]` without the white space at its two ends.
pub fn trim_from(chars: &Vec<char>, from: usize) -> (r: String)
    requires
        from <= chars@.len(),
    ensures
        r@ == trimmed(chars@.skip(from as int)),
{
    let mut i: usize = from;
    while i < chars.len() && is_white_space(chars[i])
        invariant
            from <= i <= chars@.len(),
            trimmed_start(chars@.skip(i as int)) == trimmed_start(chars@.skip(from as int)),
        decreases chars@.len() - i,
    {
        assert(chars@.skip(i as int).drop_first() =~= chars@.skip(i + 1));
        i += 1;
    }
    let mut n: usize = chars.len();
    assert(chars@.subrange(i as int, n as int) =~= chars@.skip(i as int));
    while n > i && is_white_space(chars[n - 1])
        invariant
            i <= n <= chars@.len(),
            trimmed_end(chars@.subrange(i as int, n as int)) == trimmed_end(chars@.skip(i as int)),
        decreases n,
    {
        assert(chars@.subrange(i as int, n as int).drop_last() =~= chars@.subrange(
            i as int,
            n - 1,
        ));
        n -= 1;
    }
    text_between(chars, i, n)
}

// ---------------------------------------------------------------------------
// Lines
// ---------------------------------------------------------------------------

/// `line` without one carriage return at its end.
pub open spec fn without_cr(line: Seq<char>) -> Seq<char> {
    if line.len() > 0 && line.last() == '\r' {
        line.drop_last()
    } else {
        line
    }
}

/// The lines of `t`. A line ends at `\n` or `\r\n`, which are not part of it;
/// the last line needs no line end, and there is no line after the last one.
pub open spec fn lines_of(t: Seq<char>) -> Seq<Seq<char>>
    decreases t.len(),
    via lines_of_decreases
{
    let n = first_index(t, '\n');
    if t.len() == 0 {
        Seq::empty()
    } else if n >= t.len() {
        seq![t]
    } else {
        seq![without_cr(t.take(n))] + lines_of(t.skip(n + 1))
    }
}

#[via_fn]
proof fn lines_of_decreases(t: Seq<char>) {
    lemma_first_index(t, '\n');
}

/// Splits `t` into its lines.
pub fn lines(t: &str) -> (r: Vec<String>)
    ensures
        r.deep_view() == lines_of(t@),
{
    let chars = to_chars(t);
    let mut out: Vec<String> = Vec::new();
    let mut start: usize = 0;
    let mut i: usize = 0;
    assert(t@.skip(0) =~= t@);
    assert(out.deep_view() + lines_of(t@.skip(0)) =~= lines_of(t@));
    while i < chars.len()
        invariant
            chars@ == t@,
            start <= i <= chars@.len(),
            forall|k: int| start <= k < i ==> chars@[k] != '\n',
            out.deep_view() + lines_of(t@.skip(start as int)) == lines_of(t@),
        decreases chars@.len() - i,
    {
        if chars[i] == '\n' {
            let ghost rest = t@.skip(start as int);
            let ghost before = out.deep_view();
            let mut end: usize = i;
            if end > start && chars[end - 1] == '\r' {
                end -= 1;
            }
            let line = text_between(&chars, start, end);
            proof {
                assert forall|k: int| 0 <= k < i - start implies rest[k] != '\n' by {
                    assert(rest[k] == chars@[start + k]);
                }
                lemma_first_index_is(rest, '\n', i - start);
                assert(line@ =~= without_cr(rest.take(i - start)));
                assert(rest.skip(i - start + 1) =~= t@.skip(i + 1));
            }
            out.push(line);
            assert(out.deep_view() =~= before.push(line@));
            assert(out.deep_view() + lines_of(t@.skip(i + 1)) =~= before + lines_of(rest));
            start = i + 1;
        }
        i += 1;
    }
    let ghost rest = t@.skip(start as int);
    if start < chars.len() {
        let line = text_between(&chars, start, chars.len());
        let ghost before = out.deep_view();
        proof {
            assert(line@ =~= rest);
            assert forall|k: int| 0 <= k < rest.len() implies rest[k] != '\n' by {
                assert(rest[k] == chars@[start + k]);
            }
            lemma_first_index_is(rest, '\n', rest.len() as int);
        }
        out.push(line);
        assert(out.deep_view() =~= before + lines_of(rest));
    } else {
        assert(out.deep_view() =~= out.deep_view() + lines_of(rest));
    }
    out
}

// ---------------------------------------------------------------------------
// Truncation, trailing characters, numbers
// ---------------------------------------------------------------------------

/// The first `n` characters of `t`, or all of them when there are fewer.
pub open spec fn first_chars(t: Seq<char>, n: nat) -> Seq<char> {
    if t.len() <= n {
        t
    } else {
        t.take(n as int)
    }
}

/// Keeps at most the first `n` characters of `t`.
pub fn take_chars(t: &str, n: usize) -> (r: String)
    ensures
        r@ == first_chars(t@, n as nat),
{
    let chars = to_chars(t);
    if chars.len() <= n {
        to_text(&chars)
    } else {
        let out = text_between(&chars, 0, n);
        assert(out@ =~= t@.take(n as int));
        out
    }
}

/// `t` without any `c` at its end.
pub open spec fn without_trailing(t: Seq<char>, c: char) -> Seq<char>
    decreases t.len(),
{
    if t.len() > 0 && t.last() == c {
        without_trailing(t.drop_last(), c)
    } else {
        t
    }
}

/// Removes every `c` from the end of `t`.
pub fn trim_end_char(t: &str, c: char) -> (r: String)
    ensures
        r@ == without_trailing(t@, c),
{
    let chars = to_chars(t);
    let mut n: usize = chars.len();
    assert(t@.take(n as int) =~= t@);
    while n > 0 && chars[n - 1] == c
        invariant
            chars@ == t@,
            n <= chars@.len(),
            without_trailing(t@.take(n as int), c) == without_trailing(t@, c),
        decreases n,
    {
        assert(t@.take(n as int).drop_last() =~= t@.take(n - 1));
        n -= 1;
    }
    let out = text_between(&chars, 0, n);
    assert(out@ =~= t@.take(n as int));
    out
}

/// The decimal digit for `d`.
pub open spec fn digit(d: nat) -> char {
    if d == 0 {
        '0'
    } else if d == 1 {
        '1'
    } else if d == 2 {
        '2'
    } else if d == 3 {
        '3'
    } else if d == 4 {
        '4'
    } else if d == 5 {
        '5'
    } else if d == 6 {
        '6'
    } else if d == 7 {
        '7'
    } else if d == 8 {
        '8'
    } else {
        '9'
    }
}

/// `n` in decimal notation, without leading zeros.
pub open spec fn decimal(n: nat) -> Seq<char>
    decreases n,
{
    if n < 10 {
        seq![digit(n)]
    } else {
        decimal(n / 10).push(digit(n % 10))
    }
}

/// Writes `n` in decimal notation.
pub fn decimal_text(n: usize) -> (r: String)
    ensures
        r@ == decimal(n as nat),
    decreases n,
{
    let d = n % 10;
    let c = if d == 0 {
        '0'
    } else if d == 1 {
        '1'
    } else if d == 2 {
        '2'
    } else if d == 3 {
        '3'
    } else if d == 4 {
        '4'
    } else if d == 5 {
        '5'
    } else if d == 6 {
        '6'
    } else if d == 7 {
        '7'
    } else if d == 8 {
        '8'
    } else {
        '9'
    };
    if n < 10 {
        let mut out = String::new();
        push_char(&mut out, c);
        assert(out@ =~= seq![digit(n as nat)]);
        out
    } else {
        let mut out = decimal_text(n / 10);
        push_char(&mut out, c);
        out
    }
}

/// Two numbers with the same decimal notation are the same number.
pub proof fn lemma_decimal_injective(a: nat, b: nat)
    requires
        decimal(a) == decimal(b),
    ensures
        a == b,
    decreases a,
{
    lemma_decimal_len(a);
    lemma_decimal_len(b);
    assert(decimal(a).last() == digit(a % 10));
    assert(decimal(b).last() == digit(b % 10));
    if a >= 10 && b >= 10 {
        assert(decimal(a).drop_last() =~= decimal(a / 10));
        assert(decimal(b).drop_last() =~= decimal(b / 10));
        lemma_decimal_injective(a / 10, b / 10);
    }
}

proof fn lemma_decimal_len(n: nat)
    ensures
        decimal(n).len() >= 1,
        n >= 10 ==> decimal(n).len() >= 2,
    decreases n,
{
    if n >= 10 {
        lemma_decimal_len(n / 10);
    }
}

// ---------------------------------------------------------------------------
// Laws
// ---------------------------------------------------------------------------

/// The number that digits stand for.
pub open spec fn number_read(t: Seq<char>) -> int
    decreases t.len(),
{
    if t.len() == 0 {
        0
    } else {
        10 * number_read(t.drop_last()) + (t.last() as int - '0' as int)
    }
}

/// A number in decimal notation is read back as that number; it is all digits, and
/// begins with a zero only where it is zero.
pub proof fn law_decimals_are_read_back(n: nat)
    ensures
        number_read(decimal(n)) == n,
        decimal(n).len() > 0,
        forall|k: int| 0 <= k < decimal(n).len() ==> '0' <= #[trigger] decimal(n)[k] <= '9',
        decimal(n)[0] == '0' <==> n == 0,
    decreases n,
{
    assert(digit(n % 10) as int == '0' as int + n % 10);
    if n < 10 {
        assert(decimal(n).drop_last() =~= Seq::empty());
        assert(number_read(decimal(n).drop_last()) == 0);
        assert(decimal(n)[0] == digit(n));
    } else {
        law_decimals_are_read_back(n / 10);
        assert(decimal(n).drop_last() =~= decimal(n / 10));
        assert(decimal(n)[0] == decimal(n / 10)[0]);
        assert forall|k: int| 0 <= k < decimal(n).len() implies '0' <= #[trigger] decimal(n)[k]
            <= '9' by {
            if k < decimal(n / 10).len() {
                assert(decimal(n)[k] == decimal(n / 10)[k]);
            }
        }
    }
}

/// Joining keeps every part and their order: no part makes no text, one part is itself,
/// and two lists joined one after the other have the separator between them.
pub proof fn law_joining_keeps_the_parts(
    a: Seq<Seq<char>>,
    b: Seq<Seq<char>>,
    x: Seq<char>,
    sep: Seq<char>,
)
    requires
        a.len() > 0,
        b.len() > 0,
    ensures
        joined(Seq::empty(), sep) == Seq::<char>::empty(),
        joined(seq![x], sep) == x,
        joined(a + b, sep) == joined(a, sep) + sep + joined(b, sep),
    decreases b.len(),
{
    assert((a + b).drop_last() =~= a + b.drop_last());
    if b.len() == 1 {
        assert(a + b.drop_last() =~= a);
    } else {
        law_joining_keeps_the_parts(a, b.drop_last(), x, sep);
        assert(joined(a + b, sep) =~= joined(a, sep) + sep + joined(b, sep));
    }
}

/// White space is what Unicode says it is.
pub proof fn law_white_space(c: char)
    ensures
        white_space(c) <==> ({
            let u = c as int;
            9 <= u <= 13 || u == 32 || u == 133 || u == 160 || u == 5760 || 8192 <= u <= 8202 || u
                == 8232 || u == 8233 || u == 8239 || u == 8287 || u == 12288
        }),
{
}

/// A text is blank exactly if every character of it is white space.
pub proof fn law_blank(t: Seq<char>)
    ensures
        blank(t) <==> !exists|k: int| 0 <= k < t.len() && !white_space(#[trigger] t[k]),
{
}

proof fn lemma_trimmed_start(t: Seq<char>) -> (n: int)
    ensures
        0 <= n <= t.len(),
        blank(t.take(n)),
        trimmed_start(t) == t.skip(n),
        n < t.len() ==> !white_space(t[n]),
    decreases t.len(),
{
    if t.len() > 0 && white_space(t[0]) {
        let rest = t.drop_first();
        let n = lemma_trimmed_start(rest);
        assert(rest.skip(n) =~= t.skip(n + 1));
        assert forall|k: int| 0 <= k < n + 1 implies white_space(#[trigger] t.take(n + 1)[k]) by {
            if k > 0 {
                assert(rest.take(n)[k - 1] == t[k]);
            }
        }
        n + 1
    } else {
        assert(t.skip(0) =~= t);
        0
    }
}

proof fn lemma_trimmed_end(t: Seq<char>) -> (n: int)
    ensures
        0 <= n <= t.len(),
        blank(t.skip(n)),
        trimmed_end(t) == t.take(n),
        n > 0 ==> !white_space(t[n - 1]),
    decreases t.len(),
{
    if t.len() > 0 && white_space(t.last()) {
        let rest = t.drop_last();
        let n = lemma_trimmed_end(rest);
        assert(rest.take(n) =~= t.take(n));
        assert forall|k: int| 0 <= k < t.skip(n).len() implies white_space(
            #[trigger] t.skip(n)[k],
        ) by {
            if n + k < rest.len() {
                assert(rest.skip(n)[k] == t[n + k]);
            } else {
                assert(t.skip(n)[k] == t.last());
            }
        }
        n
    } else {
        assert(t.take(t.len() as int) =~= t);
        t.len() as int
    }
}

/// Trimming takes white space off the two ends and nothing else: what is left stands in
/// the text between white space, and neither begins nor ends with any.
pub proof fn law_trimming_takes_white_space_off(t: Seq<char>)
    ensures
        exists|a: Seq<char>, b: Seq<char>|
            #![trigger a + trimmed(t) + b]
            t == a + trimmed(t) + b && blank(a) && blank(b),
        trimmed(t).len() > 0 ==> !white_space(trimmed(t).first()) && !white_space(
            trimmed(t).last(),
        ),
{
    let n = lemma_trimmed_start(t);
    let rest = t.skip(n);
    let m = lemma_trimmed_end(rest);
    assert(t =~= t.take(n) + trimmed(t) + rest.skip(m));
}

/// Taking characters off the end takes off that character and nothing else, as long as
/// there is one.
pub proof fn law_trailing_characters_go(t: Seq<char>, c: char)
    ensures
        ({
            let kept = without_trailing(t, c);
            &&& kept.len() <= t.len()
            &&& t.take(kept.len() as int) == kept
            &&& forall|k: int| kept.len() <= k < t.len() ==> #[trigger] t[k] == c
            &&& kept.len() > 0 ==> kept.last() != c
        }),
    decreases t.len(),
{
    if t.len() > 0 && t.last() == c {
        let rest = t.drop_last();
        law_trailing_characters_go(rest, c);
        let kept = without_trailing(t, c);
        assert(t.take(kept.len() as int) =~= rest.take(kept.len() as int));
        assert forall|k: int| kept.len() <= k < t.len() implies #[trigger] t[k] == c by {
            if k < rest.len() {
                assert(rest[k] == t[k]);
            }
        }
    } else {
        assert(t.take(t.len() as int) =~= t);
    }
}

/// A shortened text is as much of the beginning as is asked for.
pub proof fn law_shortening_keeps_the_beginning(t: Seq<char>, n: nat)
    ensures
        first_chars(t, n).len() == (if t.len() < n {
            t.len()
        } else {
            n
        }),
        forall|k: int| 0 <= k < first_chars(t, n).len() ==> #[trigger] first_chars(t, n)[k] == t[k],
{
}

/// The lines of a text without carriage returns, each with a line end, are the text, to
/// which a line end is added where it has none at its end; and no line holds one.
pub proof fn law_lines_make_the_text(t: Seq<char>)
    requires
        !t.contains('\r'),
    ensures
        ended(lines_of(t)) == (if t.len() == 0 || t.last() == '\n' {
            t
        } else {
            t.push('\n')
        }),
        forall|i: int| 0 <= i < lines_of(t).len() ==> !(#[trigger] lines_of(t)[i]).contains('\n'),
    decreases t.len(),
{
    let n = first_index(t, '\n');
    lemma_first_index(t, '\n');
    if t.len() == 0 {
        assert(ended(lines_of(t)) =~= t);
    } else if n >= t.len() {
        assert(lines_of(t) =~= seq![t]);
        assert(lines_of(t).drop_first() =~= Seq::empty());
        assert(ended(lines_of(t).drop_first()) =~= Seq::empty());
        assert(ended(lines_of(t)) =~= t.push('\n'));
        assert(t[t.len() - 1] != '\n');
        assert(!t.contains('\n'));
    } else {
        let line = t.take(n);
        let rest = t.skip(n + 1);
        assert(!rest.contains('\r')) by {
            if rest.contains('\r') {
                let k = choose|k: int| 0 <= k < rest.len() && rest[k] == '\r';
                assert(t[n + 1 + k] == '\r');
            }
        }
        law_lines_make_the_text(rest);
        if line.len() > 0 && line.last() == '\r' {
            assert(t[n - 1] == '\r');
        }
        assert(without_cr(line) == line);
        assert(lines_of(t) =~= seq![line] + lines_of(rest));
        assert(lines_of(t).drop_first() =~= lines_of(rest));
        assert(!line.contains('\n')) by {
            if line.contains('\n') {
                let k = choose|k: int| 0 <= k < line.len() && line[k] == '\n';
                assert(t[k] == '\n');
            }
        }
        assert forall|i: int| 0 <= i < lines_of(t).len() implies !(
        #[trigger] lines_of(t)[i]).contains('\n') by {
            if i > 0 {
                assert(lines_of(t)[i] == lines_of(rest)[i - 1]);
            }
        }
        if rest.len() > 0 {
            assert(rest.last() == t.last());
        } else {
            assert(t[n] == t.last());
        }
        assert(ended(lines_of(t)) =~= (if t.last() == '\n' {
            t
        } else {
            t.push('\n')
        }));
    }
}

/// `lines` one after the other, each with a line end behind it.
pub open spec fn ended(lines: Seq<Seq<char>>) -> Seq<char>
    decreases lines.len(),
{
    if lines.len() == 0 {
        Seq::empty()
    } else {
        lines.first().push('\n') + ended(lines.drop_first())
    }
}

/// A carriage return before a line end belongs to the line end.
pub proof fn law_carriage_returns_end_lines(line: Seq<char>, rest: Seq<char>)
    requires
        !line.contains('\n'),
        !line.contains('\r'),
    ensures
        lines_of(line + seq!['\r', '\n'] + rest) == seq![line] + lines_of(rest),
        lines_of(line + seq!['\n'] + rest) == seq![line] + lines_of(rest),
{
    let a = line + seq!['\r', '\n'] + rest;
    let b = line + seq!['\n'] + rest;
    let n = line.len() as int;
    assert forall|k: int| 0 <= k < n + 1 implies a[k] != '\n' by {
        if k < n {
            assert(a[k] == line[k]);
        }
    }
    assert(a[n + 1] == '\n');
    lemma_first_index_is(a, '\n', n + 1);
    assert(a.take(n + 1).drop_last() =~= line);
    assert(a.skip(n + 2) =~= rest);
    assert forall|k: int| 0 <= k < n implies b[k] != '\n' by {
        assert(b[k] == line[k]);
    }
    assert(b[n] == '\n');
    lemma_first_index_is(b, '\n', n);
    assert(b.take(n) =~= line);
    if n > 0 {
        assert(line[n - 1] != '\r');
    }
    assert(b.skip(n + 1) =~= rest);
}

/// A text starts with another where that stands at its front, whatever is behind.
pub proof fn law_what_a_text_starts_with(prefix: Seq<char>, rest: Seq<char>, t: Seq<char>)
    ensures
        starts_with(prefix + rest, prefix),
        starts_with(t, prefix) <==> prefix.is_prefix_of(t),
        starts_with(t, prefix) ==> t == prefix + t.skip(prefix.len() as int),
{
    assert((prefix + rest).take(prefix.len() as int) =~= prefix);
    if prefix.len() <= t.len() {
        assert(t.take(prefix.len() as int) =~= t.subrange(0, prefix.len() as int));
    }
    if starts_with(t, prefix) {
        assert(t =~= t.take(prefix.len() as int) + t.skip(prefix.len() as int));
    }
}

} // verus!
