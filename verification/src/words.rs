//! Words of a text, and how far two texts share them.

use vstd::prelude::*;

use crate::text::{contains_text, text_between, to_chars};

verus! {

/// Whether `char::is_alphanumeric` holds of `c`.
pub uninterp spec fn alphanumeric(c: char) -> bool;

/// What `str::to_lowercase` makes of `text`.
pub uninterp spec fn lowercase(text: Seq<char>) -> Seq<char>;

/// Calls `char::is_alphanumeric`, a fixed property of the character, named by
/// [`alphanumeric`].
#[verifier::external_body]
fn is_alphanumeric(c: char) -> (r: bool)
    ensures
        r == alphanumeric(c),
{
    c.is_alphanumeric()
}

/// Calls `str::to_lowercase`, a function of the text alone, named by
/// [`lowercase`].
#[verifier::external_body]
fn to_lowercase(text: &str) -> (r: String)
    ensures
        r@ == lowercase(text@),
{
    text.to_lowercase()
}

/// How many characters at the front of `t` are alphanumeric.
pub open spec fn leading_word(t: Seq<char>) -> nat
    decreases t.len(),
{
    if t.len() == 0 || !alphanumeric(t.first()) {
        0
    } else {
        1 + leading_word(t.drop_first())
    }
}

/// The words of `t`: its longest runs of alphanumeric characters, in order.
pub open spec fn words(t: Seq<char>) -> Seq<Seq<char>>
    decreases t.len(),
    via words_decreases
{
    let n = leading_word(t) as int;
    if t.len() == 0 {
        Seq::empty()
    } else if n == 0 {
        words(t.skip(1))
    } else {
        seq![t.take(n)] + words(t.skip(n))
    }
}

#[via_fn]
proof fn words_decreases(t: Seq<char>) {
    lemma_leading_word(t);
}

proof fn lemma_leading_word(t: Seq<char>)
    ensures
        leading_word(t) <= t.len(),
        forall|k: int| 0 <= k < leading_word(t) ==> alphanumeric(#[trigger] t[k]),
        leading_word(t) < t.len() ==> !alphanumeric(t[leading_word(t) as int]),
    decreases t.len(),
{
    if t.len() > 0 && alphanumeric(t.first()) {
        let rest = t.drop_first();
        lemma_leading_word(rest);
        assert forall|k: int| 0 <= k < leading_word(t) implies alphanumeric(#[trigger] t[k]) by {
            if k > 0 {
                assert(rest[k - 1] == t[k]);
            }
        }
    }
}

proof fn lemma_leading_word_is(t: Seq<char>, n: int)
    requires
        0 <= n <= t.len(),
        forall|k: int| 0 <= k < n ==> alphanumeric(#[trigger] t[k]),
        n < t.len() ==> !alphanumeric(t[n]),
    ensures
        leading_word(t) == n,
{
    lemma_leading_word(t);
}

/// The distinct words of `t` in lower case.
pub open spec fn vocabulary(t: Seq<char>) -> Set<Seq<char>> {
    words(t).map_values(|w: Seq<char>| lowercase(w)).to_set()
}

/// Whether no text stands twice in `list`.
spec fn distinct(list: Seq<Seq<char>>) -> bool {
    list.no_duplicates()
}

/// Collects the distinct words of `t` in lower case.
fn collect_vocabulary(t: &str) -> (r: Vec<String>)
    ensures
        distinct(r.deep_view()),
        r.deep_view().to_set() == vocabulary(t@),
{
    let chars = to_chars(t);
    let ghost lower = |w: Seq<char>| lowercase(w);
    let mut out: Vec<String> = Vec::new();
    let mut i: usize = 0;
    assert(out.deep_view() =~= Seq::empty());
    assert(t@.skip(0) =~= t@);
    assert(out.deep_view().to_set() + words(t@.skip(0)).map_values(lower).to_set() =~= vocabulary(
        t@,
    ));
    while i < chars.len()
        invariant
            chars@ == t@,
            i <= chars@.len(),
            lower == |w: Seq<char>| lowercase(w),
            distinct(out.deep_view()),
            out.deep_view().to_set() + words(t@.skip(i as int)).map_values(lower).to_set()
                == vocabulary(t@),
        decreases chars@.len() - i,
    {
        let start = i;
        let ghost rest = t@.skip(start as int);
        while i < chars.len() && is_alphanumeric(chars[i])
            invariant
                chars@ == t@,
                start <= i <= chars@.len(),
                rest == t@.skip(start as int),
                forall|k: int| 0 <= k < i - start ==> alphanumeric(#[trigger] rest[k]),
            decreases chars@.len() - i,
        {
            assert(rest[i - start] == chars@[i as int]);
            i += 1;
        }
        proof {
            if i < chars@.len() {
                assert(rest[i - start] == chars@[i as int]);
            }
            lemma_leading_word_is(rest, i - start);
        }
        if i == start {
            assert(rest.skip(1) =~= t@.skip(i + 1));
            i += 1;
        } else {
            let word = text_between(&chars, start, i);
            let low = to_lowercase(word.as_str());
            let ghost had = out.deep_view();
            let ghost tail = words(t@.skip(i as int)).map_values(lower);
            proof {
                assert(word@ =~= rest.take(i - start));
                assert(rest.skip(i - start) =~= t@.skip(i as int));
                assert(words(rest).map_values(lower) =~= seq![low@] + tail);
                assert(words(rest).map_values(lower).to_set() =~= set![low@] + tail.to_set()) by {
                    let all = seq![low@] + tail;
                    assert forall|x: Seq<char>| all.to_set().contains(x) implies (set![low@]
                        + tail.to_set()).contains(x) by {
                        let k = choose|k: int| 0 <= k < all.len() && all[k] == x;
                        if k > 0 {
                            assert(tail[k - 1] == x);
                        }
                    }
                    assert forall|x: Seq<char>| (set![low@]
                        + tail.to_set()).contains(x) implies all.to_set().contains(x) by {
                        if x == low@ {
                            assert(all[0] == x);
                        } else {
                            let k = choose|k: int| 0 <= k < tail.len() && tail[k] == x;
                            assert(all[k + 1] == x);
                        }
                    }
                }
            }
            if !contains_text(&out, low.as_str()) {
                out.push(low);
                assert(out.deep_view() =~= had.push(low@));
                assert(out.deep_view().to_set() =~= had.to_set().insert(low@)) by {
                    lemma_push_to_set(had, low@);
                }
                assert(out.deep_view().to_set() + tail.to_set() =~= had.to_set() + (set![low@]
                    + tail.to_set()));
            } else {
                assert(had.to_set().contains(low@));
                assert(had.to_set() + tail.to_set() =~= had.to_set() + (set![low@]
                    + tail.to_set()));
            }
        }
    }
    assert(words(t@.skip(chars@.len() as int)).map_values(lower) =~= Seq::empty());
    assert(out.deep_view().to_set() =~= vocabulary(t@)) by {
        assert(words(t@.skip(chars@.len() as int)).map_values(lower).to_set() =~= Set::empty());
    }
    out
}

proof fn lemma_push_to_set(list: Seq<Seq<char>>, x: Seq<char>)
    ensures
        list.push(x).to_set() == list.to_set().insert(x),
{
    let after = list.push(x);
    assert forall|y: Seq<char>| list.to_set().insert(x).contains(y) implies after.to_set().contains(
        y,
    ) by {
        if y == x {
            assert(after[list.len() as int] == x);
        } else {
            let k = choose|k: int| 0 <= k < list.len() && list[k] == y;
            assert(after[k] == y);
        }
    }
    assert forall|y: Seq<char>| after.to_set().contains(y) implies list.to_set().insert(
        x,
    ).contains(y) by {
        let k = choose|k: int| 0 <= k < after.len() && after[k] == y;
        if k < list.len() {
            assert(list[k] == y);
        }
    }
    assert(after.to_set() =~= list.to_set().insert(x));
}

/// How many distinct words two texts share, and how many they have together.
/// Their Jaccard similarity is the quotient, or one where neither has a word.
#[derive(Debug, Clone, Copy, PartialEq, Eq, Structural)]
pub struct Overlap {
    pub shared: usize,
    pub total: u128,
}

/// The words shared and the words in all.
pub open spec fn counts(o: Overlap) -> (nat, nat) {
    (o.shared as nat, o.total as nat)
}

/// How many distinct words `a` and `b` share, and how many they have together.
pub open spec fn compared(a: Seq<char>, b: Seq<char>) -> (nat, nat) {
    (vocabulary(a).intersect(vocabulary(b)).len(), vocabulary(a).union(vocabulary(b)).len())
}

/// Counts the distinct words that `a` and `b` share, and those of both.
pub fn overlap(a: &str, b: &str) -> (r: Overlap)
    ensures
        counts(r) == compared(a@, b@),
{
    let of_a = collect_vocabulary(a);
    let of_b = collect_vocabulary(b);
    let ghost va = of_a.deep_view();
    let ghost vb = of_b.deep_view();
    let mut shared: usize = 0;
    let ghost mut common = Seq::<Seq<char>>::empty();
    for i in 0..of_a.len()
        invariant
            va == of_a.deep_view(),
            vb == of_b.deep_view(),
            distinct(va),
            distinct(common),
            shared == common.len(),
            shared <= i,
            forall|x: Seq<char>|
                common.contains(x) <==> va.take(i as int).contains(x) && vb.contains(x),
    {
        let ghost word = of_a@[i as int]@;
        let ghost had = common;
        assert(va.take(i + 1) =~= va.take(i as int).push(word));
        assert forall|x: Seq<char>| va.take(i + 1).contains(x) <==> va.take(i as int).contains(x)
            || x == word by {
            lemma_push_contains(va.take(i as int), word, x);
        }
        assert(!va.take(i as int).contains(word)) by {
            if va.take(i as int).contains(word) {
                let k = choose|k: int| 0 <= k < i && va.take(i as int)[k] == word;
                assert(va[k] == va[i as int]);
            }
        }
        if contains_text(&of_b, of_a[i].as_str()) {
            shared = shared + 1;
            proof {
                common = had.push(word);
                assert forall|x: Seq<char>| common.contains(x) <==> had.contains(x) || x
                    == word by {
                    lemma_push_contains(had, word, x);
                }
                assert(!had.contains(word));
                assert(distinct(common)) by {
                    lemma_push_distinct(had, word);
                }
            }
        }
    }
    proof {
        assert(va.take(va.len() as int) =~= va);
        common.unique_seq_to_set();
        va.unique_seq_to_set();
        vb.unique_seq_to_set();
        assert(common.to_set() =~= vocabulary(a@).intersect(vocabulary(b@)));
        vstd::set_lib::lemma_set_intersect_union_lens(vocabulary(a@), vocabulary(b@));
        lemma_vocabulary_is_small(a@);
        lemma_vocabulary_is_small(b@);
        vstd::set_lib::lemma_len_intersect(vocabulary(a@), vocabulary(b@));
    }
    let total: u128 = (of_a.len() - shared) as u128 + of_b.len() as u128;
    Overlap { shared, total }
}

proof fn lemma_push_contains(list: Seq<Seq<char>>, x: Seq<char>, y: Seq<char>)
    ensures
        list.push(x).contains(y) <==> list.contains(y) || y == x,
{
    if list.push(x).contains(y) {
        let k = choose|k: int| 0 <= k < list.push(x).len() && list.push(x)[k] == y;
        if k < list.len() {
            assert(list[k] == y);
        }
    }
    if list.contains(y) {
        let k = choose|k: int| 0 <= k < list.len() && list[k] == y;
        assert(list.push(x)[k] == y);
    }
    assert(list.push(x)[list.len() as int] == x);
}

proof fn lemma_push_distinct(list: Seq<Seq<char>>, x: Seq<char>)
    requires
        distinct(list),
        !list.contains(x),
    ensures
        distinct(list.push(x)),
{
    let after = list.push(x);
    assert forall|i: int, j: int| 0 <= i < after.len() && 0 <= j < after.len() && i
        != j implies after[i] != after[j] by {
        if i < list.len() && j < list.len() {
            assert(list[i] != list[j]);
        } else if i < list.len() {
            assert(list[i] != x);
        } else if j < list.len() {
            assert(list[j] != x);
        }
    }
}

proof fn lemma_word_count(t: Seq<char>)
    ensures
        words(t).len() <= t.len(),
    decreases t.len(),
{
    lemma_leading_word(t);
    let n = leading_word(t) as int;
    if t.len() > 0 {
        if n == 0 {
            lemma_word_count(t.skip(1));
        } else {
            lemma_word_count(t.skip(n));
        }
    }
}

proof fn lemma_vocabulary_is_small(t: Seq<char>)
    ensures
        vocabulary(t).len() <= t.len(),
        vocabulary(t).finite(),
{
    lemma_word_count(t);
    let all = words(t).map_values(|w: Seq<char>| lowercase(w));
    vstd::seq_lib::seq_to_set_is_finite(all);
    all.lemma_cardinality_of_set();
}

/// What makes the quotient a similarity: it is symmetric; it lies between none and all;
/// all is shared exactly when the two texts have the same words, also where neither
/// has one; and none of some is shared exactly when no word stands in both, and at
/// least one in either.
pub proof fn law_overlap_is_a_similarity(a: Seq<char>, b: Seq<char>)
    ensures
        compared(a, b) == compared(b, a),
        compared(a, b).0 <= compared(a, b).1,
        compared(a, b).0 == compared(a, b).1 <==> vocabulary(a) == vocabulary(b),
        compared(a, b).1 == 0 <==> vocabulary(a).is_empty() && vocabulary(b).is_empty(),
        compared(a, b).0 == 0 && compared(a, b).1 > 0 <==> vocabulary(a).disjoint(vocabulary(b))
            && !(vocabulary(a).is_empty() && vocabulary(b).is_empty()),
{
    let va = vocabulary(a);
    let vb = vocabulary(b);
    lemma_vocabulary_is_small(a);
    lemma_vocabulary_is_small(b);
    assert(va.intersect(vb) =~= vb.intersect(va));
    assert(va.union(vb) =~= vb.union(va));
    vstd::set_lib::lemma_len_subset(va.intersect(vb), va.union(vb));
    if va.intersect(vb).len() == va.union(vb).len() {
        vstd::set_lib::lemma_subset_equality(va.intersect(vb), va.union(vb));
        assert forall|x: Seq<char>| va.contains(x) == vb.contains(x) by {
            assert(va.intersect(vb).contains(x) == va.union(vb).contains(x));
        }
        assert(va =~= vb);
    }
    if va == vb {
        assert(va.intersect(vb) =~= va.union(vb));
    }
    if va.intersect(vb).len() == 0 {
        assert(va.intersect(vb) =~= Set::empty());
        assert forall|x: Seq<char>| va.contains(x) implies !vb.contains(x) by {
            assert(!va.intersect(vb).contains(x));
        }
    }
    if va.disjoint(vb) {
        assert(va.intersect(vb) =~= Set::empty());
    }
    if va.union(vb).len() == 0 {
        assert(va.union(vb) =~= Set::empty());
        assert forall|x: Seq<char>| !va.contains(x) && !vb.contains(x) by {
            assert(!va.union(vb).contains(x));
        }
        assert(va =~= Set::empty());
        assert(vb =~= Set::empty());
    }
    if va.is_empty() && vb.is_empty() {
        assert(va.union(vb) =~= Set::empty());
    }
}

/// Words are cut where a character is not alphanumeric, and nowhere else.
pub proof fn law_words_are_cut_between(a: Seq<char>, c: char, b: Seq<char>)
    requires
        !alphanumeric(c),
    ensures
        words(a + seq![c] + b) == words(a) + words(b),
        words(Seq::empty()) == Seq::<Seq<char>>::empty(),
        a.len() > 0 && (forall|k: int| 0 <= k < a.len() ==> alphanumeric(#[trigger] a[k]))
            ==> words(a) == seq![a],
    decreases a.len(),
{
    let all = a + seq![c] + b;
    let n = leading_word(a) as int;
    lemma_leading_word(a);
    if a.len() == 0 {
        assert(all.first() == c);
        assert(all.skip(1) =~= b);
        assert(words(all) =~= words(a) + words(b));
    } else if n == 0 {
        assert(all.first() == a.first());
        assert(all.skip(1) =~= a.skip(1) + seq![c] + b);
        law_words_are_cut_between(a.skip(1), c, b);
        assert(!alphanumeric(a[0]));
    } else {
        assert forall|k: int| 0 <= k < n implies alphanumeric(#[trigger] all[k]) by {
            assert(all[k] == a[k]);
        }
        assert(!alphanumeric(all[n])) by {
            if n < a.len() {
                assert(all[n] == a[n]);
            } else {
                assert(all[n] == c);
            }
        }
        lemma_leading_word_is(all, n);
        assert(all.take(n) =~= a.take(n));
        assert(all.skip(n) =~= a.skip(n) + seq![c] + b);
        law_words_are_cut_between(a.skip(n), c, b);
        assert(words(all) =~= words(a) + words(b));
        if forall|k: int| 0 <= k < a.len() ==> alphanumeric(#[trigger] a[k]) {
            lemma_leading_word_is(a, a.len() as int);
            assert(a.take(n) =~= a);
            assert(a.skip(n) =~= Seq::empty());
            assert(words(a.skip(n)) =~= Seq::empty());
            assert(words(a) =~= seq![a]);
        }
    }
}

/// The vocabulary of a text is its words in lower case, each once.
pub proof fn law_the_vocabulary_is_the_words(t: Seq<char>, x: Seq<char>)
    ensures
        vocabulary(t).contains(x) <==> exists|k: int|
            0 <= k < words(t).len() && lowercase(#[trigger] words(t)[k]) == x,
{
    let low = words(t).map_values(|w: Seq<char>| lowercase(w));
    if vocabulary(t).contains(x) {
        let k = choose|k: int| 0 <= k < low.len() && low[k] == x;
        assert(lowercase(words(t)[k]) == x);
    }
    if exists|k: int| 0 <= k < words(t).len() && lowercase(#[trigger] words(t)[k]) == x {
        let k = choose|k: int| 0 <= k < words(t).len() && lowercase(#[trigger] words(t)[k]) == x;
        assert(low[k] == x);
    }
}

/// What two texts share and what they have together make up what each has.
pub proof fn law_shared_and_total_add_up(a: Seq<char>, b: Seq<char>, o: Overlap)
    ensures
        compared(a, b).0 + compared(a, b).1 == vocabulary(a).len() + vocabulary(b).len(),
        vocabulary(a).subset_of(vocabulary(b)) ==> compared(a, b).0 == vocabulary(a).len(),
        counts(o).0 == o.shared,
        counts(o).1 == o.total,
{
    lemma_vocabulary_is_small(a);
    lemma_vocabulary_is_small(b);
    vstd::set_lib::lemma_set_intersect_union_lens(vocabulary(a), vocabulary(b));
    if vocabulary(a).subset_of(vocabulary(b)) {
        assert(vocabulary(a).intersect(vocabulary(b)) =~= vocabulary(a));
    }
}

} // verus!
