//! A map from text to text.

use vstd::prelude::*;

use crate::text::same_text;

verus! {

/// A map from text to text. A later entry for a key replaces an earlier one.
#[derive(Debug)]
pub struct IdMap {
    entries: Vec<(String, String)>,
}

/// The map that a run of insertions makes of `m`.
pub open spec fn inserted(
    m: Map<Seq<char>, Seq<char>>,
    pairs: Seq<(Seq<char>, Seq<char>)>,
) -> Map<Seq<char>, Seq<char>>
    decreases pairs.len(),
{
    if pairs.len() == 0 {
        m
    } else {
        inserted(m, pairs.drop_last()).insert(pairs.last().0, pairs.last().1)
    }
}

impl View for IdMap {
    type V = Map<Seq<char>, Seq<char>>;

    closed spec fn view(&self) -> Map<Seq<char>, Seq<char>> {
        inserted(Map::empty(), self.entries.deep_view())
    }
}

proof fn lemma_lookup(pairs: Seq<(Seq<char>, Seq<char>)>, key: Seq<char>, i: int)
    requires
        0 <= i < pairs.len(),
        pairs[i].0 == key,
        forall|k: int| i < k < pairs.len() ==> (#[trigger] pairs[k]).0 != key,
    ensures
        inserted(Map::empty(), pairs).contains_key(key),
        inserted(Map::empty(), pairs)[key] == pairs[i].1,
    decreases pairs.len(),
{
    if i < pairs.len() - 1 {
        lemma_lookup(pairs.drop_last(), key, i);
    }
}

proof fn lemma_absent(pairs: Seq<(Seq<char>, Seq<char>)>, key: Seq<char>)
    requires
        forall|k: int| 0 <= k < pairs.len() ==> (#[trigger] pairs[k]).0 != key,
    ensures
        !inserted(Map::empty(), pairs).contains_key(key),
    decreases pairs.len(),
{
    if pairs.len() > 0 {
        lemma_absent(pairs.drop_last(), key);
    }
}

proof fn lemma_replace(
    pairs: Seq<(Seq<char>, Seq<char>)>,
    key: Seq<char>,
    value: Seq<char>,
    i: int,
)
    requires
        0 <= i < pairs.len(),
        pairs[i].0 == key,
        forall|k: int| i < k < pairs.len() ==> (#[trigger] pairs[k]).0 != key,
    ensures
        inserted(Map::empty(), pairs.update(i, (key, value))) == inserted(
            Map::empty(),
            pairs,
        ).insert(key, value),
    decreases pairs.len(),
{
    let after = pairs.update(i, (key, value));
    if i == pairs.len() - 1 {
        assert(after.drop_last() =~= pairs.drop_last());
    } else {
        lemma_replace(pairs.drop_last(), key, value, i);
        assert(after.drop_last() =~= pairs.drop_last().update(i, (key, value)));
    }
    assert(inserted(Map::empty(), after) =~= inserted(Map::empty(), pairs).insert(key, value));
}

impl IdMap {
    /// A map without entries.
    pub fn new() -> (r: IdMap)
        ensures
            r@ == Map::<Seq<char>, Seq<char>>::empty(),
    {
        let r = IdMap { entries: Vec::new() };
        assert(r.entries.deep_view() =~= Seq::empty());
        r
    }

    /// The index of the last entry for `key`.
    fn position(&self, key: &str) -> (r: Option<usize>)
        ensures
            match r {
                Some(i) => {
                    &&& i < self.entries@.len()
                    &&& self.entries.deep_view()[i as int].0 == key@
                    &&& forall|k: int|
                        i < k < self.entries@.len() ==> (#[trigger] self.entries.deep_view()[k]).0
                            != key@
                },
                None => forall|k: int|
                    0 <= k < self.entries@.len() ==> (#[trigger] self.entries.deep_view()[k]).0
                        != key@,
            },
    {
        let mut i: usize = self.entries.len();
        while i > 0
            invariant
                i <= self.entries@.len(),
                forall|k: int|
                    i <= k < self.entries@.len() ==> (#[trigger] self.entries.deep_view()[k]).0
                        != key@,
            decreases i,
        {
            i -= 1;
            assert(self.entries.deep_view()[i as int].0 == self.entries@[i as int].0@);
            if same_text(self.entries[i].0.as_str(), key) {
                return Some(i);
            }
        }
        None
    }

    /// The value for `key`, if there is one.
    pub fn get(&self, key: &str) -> (r: Option<String>)
        ensures
            r.deep_view() == (if self@.contains_key(key@) {
                Some(self@[key@])
            } else {
                None
            }),
    {
        match self.position(key) {
            Some(i) => {
                proof {
                    lemma_lookup(self.entries.deep_view(), key@, i as int);
                }
                Some(self.entries[i].1.clone())
            },
            None => {
                proof {
                    lemma_absent(self.entries.deep_view(), key@);
                }
                None
            },
        }
    }

    /// Sets the value for `key`.
    pub fn insert(&mut self, key: String, value: String)
        ensures
            final(self)@ == old(self)@.insert(key@, value@),
    {
        let ghost before = self.entries.deep_view();
        let ghost view = (key@, value@);
        match self.position(key.as_str()) {
            Some(i) => {
                proof {
                    lemma_replace(before, key@, value@, i as int);
                }
                self.entries.set(i, (key, value));
                assert(self.entries.deep_view() =~= before.update(i as int, view));
            },
            None => {
                self.entries.push((key, value));
                assert(self.entries.deep_view() =~= before.push(view));
                assert(self.entries.deep_view().drop_last() =~= before);
            },
        }
    }

    /// Sets the values of all `pairs`, in order.
    pub fn insert_all(&mut self, pairs: Vec<(String, String)>)
        ensures
            final(self)@ == inserted(old(self)@, pairs.deep_view()),
    {
        let ghost all = pairs.deep_view();
        let ghost start = self@;
        let ghost list = pairs@;
        for p in it: pairs
            invariant
                it.seq() == list,
                all.len() == list.len(),
                forall|k: int| 0 <= k < all.len() ==> all[k] == (#[trigger] list[k]).deep_view(),
                self@ == inserted(start, all.take(it.index())),
        {
            let ghost k = it.index();
            assert(list[k] == p);
            assert(all.take(k + 1).drop_last() =~= all.take(k));
            assert(all.take(k + 1).last() == (p.0@, p.1@));
            self.insert(p.0, p.1);
        }
        assert(all.take(all.len() as int) =~= all);
    }
}

/// A key keeps the last value inserted for it, and a key that nothing is inserted
/// for keeps what it had.
pub proof fn law_last_insertion_wins(
    m: Map<Seq<char>, Seq<char>>,
    pairs: Seq<(Seq<char>, Seq<char>)>,
    key: Seq<char>,
    i: int,
)
    requires
        -1 <= i < pairs.len(),
        i >= 0 ==> pairs[i].0 == key,
        forall|k: int| i < k < pairs.len() ==> (#[trigger] pairs[k]).0 != key,
    ensures
        i >= 0 ==> inserted(m, pairs).contains_key(key) && inserted(m, pairs)[key] == pairs[i].1,
        i < 0 ==> inserted(m, pairs).contains_key(key) == m.contains_key(key) && inserted(
            m,
            pairs,
        )[key] == m[key],
    decreases pairs.len(),
{
    if pairs.len() > 0 && i < pairs.len() - 1 {
        assert(pairs[pairs.len() - 1].0 != key);
        law_last_insertion_wins(m, pairs.drop_last(), key, i);
    }
}

} // verus!
