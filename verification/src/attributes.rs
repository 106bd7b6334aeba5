//! Attributes of an element: the list as written, and the keyed map.

use crate::text::{decimal, signed_decimal, to_decimal, to_signed_decimal};
use vstd::prelude::*;
use vstd::string::StringExecFns;

verus! {

/// The plain value of a list of attributes: pairs of a key and a value.
pub type PairsModel = Seq<(Seq<char>, Seq<char>)>;

/// The markup of one attribute: the key, `="`, the value and `"`.
pub open spec fn pair_markup(pair: (Seq<char>, Seq<char>)) -> Seq<char> {
    pair.0 + seq!['=', '"'] + pair.1 + seq!['"']
}

/// The markup of a list of attributes: that of each, in order, with nothing
/// between them.
pub open spec fn pairs_markup(pairs: PairsModel) -> Seq<char>
    decreases pairs.len(),
{
    if pairs.len() == 0 {
        Seq::empty()
    } else {
        pairs_markup(pairs.drop_last()) + pair_markup(pairs.last())
    }
}

/// The plain values of a list of pairs of strings.
pub open spec fn pairs_view(pairs: Seq<(String, String)>) -> PairsModel {
    Seq::new(pairs.len(), |i: int| (pairs[i].0@, pairs[i].1@))
}

/// The position of the first pair with the key `key`, or the length of `pairs`
/// where there is none.
pub open spec fn index_of(pairs: PairsModel, key: Seq<char>) -> int
    decreases pairs.len(),
{
    if pairs.len() == 0 {
        0
    } else if pairs[0].0 == key {
        0
    } else {
        1 + index_of(pairs.drop_first(), key)
    }
}

/// Whether `a` comes before `b` in the order of the keys: at the first place
/// at which they differ, `a` has ended or has the character with the smaller
/// number.
pub open spec fn precedes(a: Seq<char>, b: Seq<char>) -> bool
    decreases a.len(),
{
    if b.len() == 0 {
        false
    } else if a.len() == 0 {
        true
    } else if a[0] != b[0] {
        (a[0] as int) < (b[0] as int)
    } else {
        precedes(a.drop_first(), b.drop_first())
    }
}

/// Whether no key occurs twice.
pub open spec fn distinct_keys(pairs: PairsModel) -> bool {
    forall|i: int, j: int| 0 <= i < j < pairs.len() ==> pairs[i].0 != pairs[j].0
}

/// Whether the pairs stand in the order of their keys, each key once.
pub open spec fn sorted_keys(pairs: PairsModel) -> bool {
    forall|i: int, j: int| 0 <= i < j < pairs.len() ==> precedes(pairs[i].0, pairs[j].0)
}

/// The value kept under `key`, if any.
pub open spec fn lookup(pairs: PairsModel, key: Seq<char>) -> Option<Seq<char>> {
    if index_of(pairs, key) < pairs.len() {
        Some(pairs[index_of(pairs, key)].1)
    } else {
        None
    }
}

/// The number of pairs at the front whose keys come before `key`: the place
/// that `key` has among them.
pub open spec fn position(pairs: PairsModel, key: Seq<char>) -> int
    decreases pairs.len(),
{
    if pairs.len() == 0 {
        0
    } else if precedes(pairs[0].0, key) {
        1 + position(pairs.drop_first(), key)
    } else {
        0
    }
}

/// The pairs after `value` was put under `key`: a key that is there takes the
/// new value, a new key takes its place in the order of the keys.
pub open spec fn inserted(pairs: PairsModel, key: Seq<char>, value: Seq<char>) -> PairsModel {
    let at = position(pairs, key);
    if at < pairs.len() && pairs[at].0 == key {
        pairs.update(at, (key, value))
    } else {
        pairs.insert(at, (key, value))
    }
}

/// The map that a list of attributes gives: each pair put in turn, so that of
/// two pairs with one key the later value stays.
pub open spec fn collected(pairs: PairsModel) -> PairsModel
    decreases pairs.len(),
{
    if pairs.len() == 0 {
        Seq::empty()
    } else {
        inserted(collected(pairs.drop_last()), pairs.last().0, pairs.last().1)
    }
}

/// No key comes before itself.
pub proof fn lemma_precedes_irreflexive(a: Seq<char>)
    ensures
        !precedes(a, a),
    decreases a.len(),
{
    if a.len() > 0 {
        lemma_precedes_irreflexive(a.drop_first());
    }
}

/// Of two keys at most one comes before the other.
pub proof fn lemma_precedes_asymmetric(a: Seq<char>, b: Seq<char>)
    requires
        precedes(a, b),
    ensures
        !precedes(b, a),
    decreases a.len(),
{
    if a.len() > 0 && b.len() > 0 && a[0] == b[0] {
        lemma_precedes_asymmetric(a.drop_first(), b.drop_first());
    }
}

/// Of two different keys one comes before the other.
pub proof fn lemma_precedes_total(a: Seq<char>, b: Seq<char>)
    requires
        a != b,
    ensures
        precedes(a, b) || precedes(b, a),
    decreases a.len(),
{
    if a.len() > 0 && b.len() > 0 && a[0] == b[0] {
        if a.drop_first() == b.drop_first() {
            assert(a =~= seq![a[0]] + a.drop_first());
            assert(b =~= seq![b[0]] + b.drop_first());
        }
        lemma_precedes_total(a.drop_first(), b.drop_first());
    } else if a.len() == 0 && b.len() == 0 {
        assert(a =~= b);
    }
}

/// A key that comes before a second, which comes before a third, comes before
/// the third.
pub proof fn lemma_precedes_transitive(a: Seq<char>, b: Seq<char>, c: Seq<char>)
    requires
        precedes(a, b),
        precedes(b, c),
    ensures
        precedes(a, c),
    decreases a.len(),
{
    if a.len() > 0 && a[0] == b[0] && b[0] == c[0] {
        lemma_precedes_transitive(a.drop_first(), b.drop_first(), c.drop_first());
    }
}

/// What [`index_of`] finds: the first position with the key, before which the
/// key does not occur.
pub proof fn lemma_index_of(pairs: PairsModel, key: Seq<char>)
    ensures
        0 <= index_of(pairs, key) <= pairs.len(),
        index_of(pairs, key) < pairs.len() ==> pairs[index_of(pairs, key)].0 == key,
        forall|k: int| 0 <= k < index_of(pairs, key) ==> (#[trigger] pairs[k]).0 != key,
    decreases pairs.len(),
{
    if pairs.len() > 0 && pairs[0].0 != key {
        let rest = pairs.drop_first();
        lemma_index_of(rest, key);
        assert forall|k: int| 0 <= k < index_of(pairs, key) implies (#[trigger] pairs[k]).0
            != key by {
            if k > 0 {
                assert(pairs[k] == rest[k - 1]);
            }
        }
    }
}

/// A position is the one that [`index_of`] finds when the key stands there, or
/// the list ends there, and the key does not occur before it.
pub proof fn lemma_index_of_is(pairs: PairsModel, key: Seq<char>, at: int)
    requires
        0 <= at <= pairs.len(),
        at < pairs.len() ==> pairs[at].0 == key,
        forall|k: int| 0 <= k < at ==> (#[trigger] pairs[k]).0 != key,
    ensures
        index_of(pairs, key) == at,
{
    lemma_index_of(pairs, key);
    let found = index_of(pairs, key);
    if found < at {
        assert(pairs[found].0 != key);
    }
}

/// What [`position`] finds: the keys before it come before the key, and the
/// key at it does not.
pub proof fn lemma_position(pairs: PairsModel, key: Seq<char>)
    ensures
        0 <= position(pairs, key) <= pairs.len(),
        position(pairs, key) < pairs.len() ==> !precedes(pairs[position(pairs, key)].0, key),
        forall|k: int| 0 <= k < position(pairs, key) ==> precedes((#[trigger] pairs[k]).0, key),
    decreases pairs.len(),
{
    if pairs.len() > 0 && precedes(pairs[0].0, key) {
        let rest = pairs.drop_first();
        lemma_position(rest, key);
        assert forall|k: int| 0 <= k < position(pairs, key) implies precedes(
            (#[trigger] pairs[k]).0,
            key,
        ) by {
            if k > 0 {
                assert(pairs[k] == rest[k - 1]);
            }
        }
    }
}

/// A place is the one that [`position`] finds when the keys before it come
/// before the key and the key at it does not.
pub proof fn lemma_position_is(pairs: PairsModel, key: Seq<char>, at: int)
    requires
        0 <= at <= pairs.len(),
        at < pairs.len() ==> !precedes(pairs[at].0, key),
        forall|k: int| 0 <= k < at ==> precedes((#[trigger] pairs[k]).0, key),
    ensures
        position(pairs, key) == at,
{
    lemma_position(pairs, key);
    let found = position(pairs, key);
    if found < at {
        assert(precedes(pairs[found].0, key));
    }
    if at < found {
        assert(precedes(pairs[at].0, key));
    }
}

/// Pairs in the order of their keys have distinct keys.
pub proof fn lemma_sorted_distinct(pairs: PairsModel)
    requires
        sorted_keys(pairs),
    ensures
        distinct_keys(pairs),
{
    assert forall|i: int, j: int| 0 <= i < j < pairs.len() implies pairs[i].0 != pairs[j].0 by {
        lemma_precedes_irreflexive(pairs[i].0);
    }
}

/// Putting a value keeps the pairs in the order of their keys.
pub proof fn lemma_inserted_sorted(pairs: PairsModel, key: Seq<char>, value: Seq<char>)
    requires
        sorted_keys(pairs),
    ensures
        sorted_keys(inserted(pairs, key, value)),
{
    lemma_position(pairs, key);
    let after = inserted(pairs, key, value);
    let at = position(pairs, key);
    if at < pairs.len() && pairs[at].0 == key {
        assert forall|i: int, j: int| 0 <= i < j < after.len() implies precedes(
            after[i].0,
            after[j].0,
        ) by {
            assert(after[i].0 == pairs[i].0);
            assert(after[j].0 == pairs[j].0);
        }
    } else {
        assert forall|i: int, j: int| 0 <= i < j < after.len() implies precedes(
            after[i].0,
            after[j].0,
        ) by {
            if j < at {
                assert(after[i] == pairs[i] && after[j] == pairs[j]);
            } else if j == at {
                assert(after[i] == pairs[i]);
            } else if i == at {
                assert(after[j] == pairs[j - 1]);
                lemma_precedes_total(pairs[at].0, key);
                if j - 1 > at {
                    lemma_precedes_transitive(key, pairs[at].0, pairs[j - 1].0);
                }
            } else if i < at {
                assert(after[i] == pairs[i] && after[j] == pairs[j - 1]);
            } else {
                assert(after[i] == pairs[i - 1] && after[j] == pairs[j - 1]);
            }
        }
    }
}

/// After a value was put under a key, that key gives the value and every other
/// key gives what it gave before.
pub proof fn lemma_inserted_lookup(
    pairs: PairsModel,
    key: Seq<char>,
    value: Seq<char>,
    other: Seq<char>,
)
    ensures
        lookup(inserted(pairs, key, value), key) == Some(value),
        other != key ==> lookup(inserted(pairs, key, value), other) == lookup(pairs, other),
{
    lemma_position(pairs, key);
    lemma_index_of(pairs, other);
    let after = inserted(pairs, key, value);
    let at = position(pairs, key);
    let replaced = at < pairs.len() && pairs[at].0 == key;
    assert forall|k: int| 0 <= k < at implies (#[trigger] after[k]).0 != key by {
        assert(after[k] == pairs[k]);
        lemma_precedes_irreflexive(key);
    }
    lemma_index_of_is(after, key, at);
    if other != key {
        let there = index_of(pairs, other);
        if replaced {
            assert forall|k: int| 0 <= k < there implies (#[trigger] after[k]).0 != other by {
                if k != at {
                    assert(after[k] == pairs[k]);
                }
            }
            if there < pairs.len() {
                assert(after[there] == pairs[there]);
            }
            lemma_index_of_is(after, other, there);
        } else {
            let moved = if there < at {
                there
            } else {
                there + 1
            };
            assert forall|k: int| 0 <= k < moved implies (#[trigger] after[k]).0 != other by {
                if k < at {
                    assert(after[k] == pairs[k]);
                } else if k > at {
                    assert(after[k] == pairs[k - 1]);
                }
            }
            if there < pairs.len() {
                assert(after[moved] == pairs[there]);
            }
            lemma_index_of_is(after, other, moved);
        }
    }
}

/// A map made from a list stands in the order of its keys.
pub proof fn lemma_collected_sorted(pairs: PairsModel)
    ensures
        sorted_keys(collected(pairs)),
    decreases pairs.len(),
{
    if pairs.len() > 0 {
        lemma_collected_sorted(pairs.drop_last());
        lemma_inserted_sorted(collected(pairs.drop_last()), pairs.last().0, pairs.last().1);
    }
}

proof fn lemma_lookup_first(pairs: PairsModel, key: Seq<char>)
    requires
        sorted_keys(pairs),
        pairs.len() > 0,
    ensures
        lookup(pairs, pairs[0].0) == Some(pairs[0].1),
        lookup(pairs.drop_first(), pairs[0].0).is_none(),
        key != pairs[0].0 ==> lookup(pairs.drop_first(), key) == lookup(pairs, key),
        sorted_keys(pairs.drop_first()),
{
    let rest = pairs.drop_first();
    lemma_index_of(rest, pairs[0].0);
    lemma_index_of(rest, key);
    assert forall|k: int| 0 <= k < rest.len() implies (#[trigger] rest[k]).0 != pairs[0].0 by {
        assert(rest[k] == pairs[k + 1]);
        assert(precedes(pairs[0].0, pairs[k + 1].0));
        lemma_precedes_irreflexive(pairs[0].0);
    }
    if index_of(rest, pairs[0].0) < rest.len() {
        assert(rest[index_of(rest, pairs[0].0)].0 != pairs[0].0);
    }
    assert forall|i: int, j: int| 0 <= i < j < rest.len() implies precedes(rest[i].0, rest[j].0) by {
        assert(rest[i] == pairs[i + 1] && rest[j] == pairs[j + 1]);
    }
}

proof fn lemma_lookup_found(pairs: PairsModel, key: Seq<char>) -> (at: int)
    requires
        lookup(pairs, key).is_some(),
    ensures
        0 <= at < pairs.len(),
        pairs[at].0 == key,
        pairs[at].1 == lookup(pairs, key).unwrap(),
{
    lemma_index_of(pairs, key);
    index_of(pairs, key)
}

/// Insertion order is irrelevant: two maps that stand in the order of their
/// keys and give the same value under every key hold the same pairs, and so
/// have the same markup.
pub proof fn lemma_same_lookup_same_pairs(first: PairsModel, second: PairsModel)
    requires
        sorted_keys(first),
        sorted_keys(second),
        forall|key: Seq<char>| lookup(first, key) == lookup(second, key),
    ensures
        first == second,
    decreases first.len(),
{
    if first.len() == 0 {
        if second.len() > 0 {
            lemma_lookup_first(second, second[0].0);
            assert(lookup(first, second[0].0) == lookup(second, second[0].0));
        }
        assert(first =~= second);
    } else {
        lemma_lookup_first(first, first[0].0);
        assert(lookup(first, first[0].0) == lookup(second, first[0].0));
        let at = lemma_lookup_found(second, first[0].0);
        lemma_lookup_first(second, second[0].0);
        assert(lookup(first, second[0].0) == lookup(second, second[0].0));
        let back = lemma_lookup_found(first, second[0].0);
        if at > 0 {
            assert(precedes(second[0].0, second[at].0));
            if back == 0 {
                lemma_precedes_irreflexive(first[0].0);
            } else {
                assert(precedes(first[0].0, first[back].0));
                lemma_precedes_asymmetric(first[0].0, second[0].0);
            }
        }
        assert(first[0] == second[0]);
        let rest = first.drop_first();
        let other = second.drop_first();
        assert forall|key: Seq<char>| lookup(rest, key) == lookup(other, key) by {
            lemma_lookup_first(first, key);
            lemma_lookup_first(second, key);
            assert(lookup(first, key) == lookup(second, key));
        }
        lemma_same_lookup_same_pairs(rest, other);
        assert(first =~= seq![first[0]] + rest);
        assert(second =~= seq![second[0]] + other);
    }
}

/// Two values put under different keys may be put in either order.
pub proof fn lemma_insert_order_irrelevant(
    pairs: PairsModel,
    key: Seq<char>,
    value: Seq<char>,
    other: Seq<char>,
    another: Seq<char>,
)
    requires
        sorted_keys(pairs),
        key != other,
    ensures
        inserted(inserted(pairs, key, value), other, another) == inserted(
            inserted(pairs, other, another),
            key,
            value,
        ),
{
    let one = inserted(inserted(pairs, key, value), other, another);
    let two = inserted(inserted(pairs, other, another), key, value);
    lemma_inserted_sorted(pairs, key, value);
    lemma_inserted_sorted(inserted(pairs, key, value), other, another);
    lemma_inserted_sorted(pairs, other, another);
    lemma_inserted_sorted(inserted(pairs, other, another), key, value);
    assert forall|asked: Seq<char>| lookup(one, asked) == lookup(two, asked) by {
        lemma_inserted_lookup(inserted(pairs, key, value), other, another, asked);
        lemma_inserted_lookup(pairs, key, value, asked);
        lemma_inserted_lookup(inserted(pairs, other, another), key, value, asked);
        lemma_inserted_lookup(pairs, other, another, asked);
    }
    lemma_same_lookup_same_pairs(one, two);
}

fn key_before(a: &str, b: &str) -> (before: bool)
    ensures
        before == precedes(a@, b@),
{
    let length = a.unicode_len();
    let other = b.unicode_len();
    let mut i: usize = 0;
    assert(a@.skip(0) =~= a@ && b@.skip(0) =~= b@);
    while i < length && i < other
        invariant
            i <= length,
            i <= other,
            length == a@.len(),
            other == b@.len(),
            precedes(a@, b@) == precedes(a@.skip(i as int), b@.skip(i as int)),
        decreases length - i,
    {
        let mine = a.get_char(i);
        let theirs = b.get_char(i);
        proof {
            assert(a@.skip(i as int)[0] == a@[i as int]);
            assert(b@.skip(i as int)[0] == b@[i as int]);
            assert(a@.skip(i as int).drop_first() =~= a@.skip(i as int + 1));
            assert(b@.skip(i as int).drop_first() =~= b@.skip(i as int + 1));
        }
        if mine != theirs {
            return (mine as u32) < (theirs as u32);
        }
        i += 1;
    }
    length < other
}

fn render_pairs(pairs: &Vec<(String, String)>) -> (out: String)
    ensures
        out@ == pairs_markup(pairs_view(pairs@)),
{
    let mut out = String::new();
    let mut i: usize = 0;
    let ghost all = pairs_view(pairs@);
    assert(all.take(0) =~= PairsModel::empty());
    while i < pairs.len()
        invariant
            i <= pairs@.len(),
            all == pairs_view(pairs@),
            out@ == pairs_markup(all.take(i as int)),
        decreases pairs@.len() - i,
    {
        let ghost before = out@;
        out.append(pairs[i].0.as_str());
        out.append("=\"");
        out.append(pairs[i].1.as_str());
        out.append("\"");
        proof {
            reveal_strlit("=\"");
            reveal_strlit("\"");
            assert("=\""@ =~= seq!['=', '"']);
            assert("\""@ =~= seq!['"']);
            let next = all.take(i as int + 1);
            assert(next.drop_last() =~= all.take(i as int));
            assert(next.last() == all[i as int]);
            assert(out@ =~= before + pair_markup(all[i as int]));
        }
        i += 1;
    }
    assert(all.take(i as int) =~= all);
    out
}

/// The attributes of an element in the order in which they were written.
pub struct Attributes {
    attributes: Vec<(String, String)>,
}

impl View for Attributes {
    type V = PairsModel;

    closed spec fn view(&self) -> PairsModel {
        pairs_view(self.attributes@)
    }
}

impl Attributes {
    /// The attributes `attributes`, as they are.
    pub fn new(attributes: Vec<(String, String)>) -> (made: Attributes)
        ensures
            made@ == pairs_view(attributes@),
    {
        Attributes { attributes }
    }

    /// The markup of the attributes: see [`pairs_markup`].
    pub fn render(&self) -> (out: String)
        ensures
            out@ == pairs_markup(self@),
    {
        render_pairs(&self.attributes)
    }
}

/// A map of attributes: each key once, in the order of the keys. Its markup
/// does not depend on the order in which the keys were put.
pub struct AttrMap {
    attributes: Vec<(String, String)>,
}

impl View for AttrMap {
    type V = PairsModel;

    closed spec fn view(&self) -> PairsModel {
        pairs_view(self.attributes@)
    }
}

impl AttrMap {
    /// The map that the list `attributes` gives: see [`collected`].
    pub fn new(attributes: Vec<(String, String)>) -> (map: AttrMap)
        ensures
            map@ == collected(pairs_view(attributes@)),
            sorted_keys(map@),
    {
        let mut map = AttrMap { attributes: Vec::new() };
        let ghost all = pairs_view(attributes@);
        assert(map@ =~= collected(all.take(0))) by {
            assert(all.take(0) =~= PairsModel::empty());
        }
        let mut i: usize = 0;
        while i < attributes.len()
            invariant
                i <= attributes@.len(),
                all == pairs_view(attributes@),
                map@ == collected(all.take(i as int)),
            decreases attributes@.len() - i,
        {
            let key = attributes[i].0.clone();
            let value = attributes[i].1.clone();
            proof {
                let next = all.take(i as int + 1);
                assert(next.drop_last() =~= all.take(i as int));
                assert(next.last() == all[i as int]);
            }
            map.insert(key, value);
            i += 1;
        }
        assert(all.take(i as int) =~= all);
        proof {
            lemma_collected_sorted(all);
        }
        map
    }

    /// Puts `value` under `key`: see [`inserted`].
    pub fn insert(&mut self, key: String, value: String)
        ensures
            final(self)@ == inserted(old(self)@, key@, value@),
            sorted_keys(old(self)@) ==> sorted_keys(final(self)@),
    {
        proof {
            if sorted_keys(self@) {
                lemma_inserted_sorted(self@, key@, value@);
            }
        }
        let ghost before = self@;
        let mut i: usize = 0;
        while i < self.attributes.len() && key_before(self.attributes[i].0.as_str(), key.as_str())
            invariant
                i <= self.attributes@.len(),
                self@ == before,
                forall|k: int| 0 <= k < i ==> precedes((#[trigger] before[k]).0, key@),
            decreases self.attributes@.len() - i,
        {
            i += 1;
        }
        proof {
            lemma_position_is(before, key@, i as int);
        }
        if i < self.attributes.len() && self.attributes[i].0 == key {
            self.attributes[i] = (key, value);
            assert(self@ =~= inserted(before, key@, value@));
        } else {
            self.attributes.insert(i, (key, value));
            assert(self@ =~= inserted(before, key@, value@));
        }
    }

    /// The value kept under `key`, if any.
    pub fn get(&self, key: &str) -> (value: Option<String>)
        ensures
            match value {
                Some(text) => lookup(self@, key@) == Some(text@),
                None => lookup(self@, key@).is_none(),
            },
    {
        let wanted = String::from_str(key);
        let mut i: usize = 0;
        while i < self.attributes.len()
            invariant
                i <= self.attributes@.len(),
                wanted@ == key@,
                forall|k: int| 0 <= k < i ==> (#[trigger] self@[k]).0 != key@,
            decreases self.attributes@.len() - i,
        {
            if self.attributes[i].0 == wanted {
                proof {
                    lemma_index_of_is(self@, key@, i as int);
                }
                return Some(self.attributes[i].1.clone());
            }
            i += 1;
        }
        proof {
            lemma_index_of_is(self@, key@, i as int);
        }
        None
    }

    /// The number of keys.
    pub fn len(&self) -> (len: usize)
        ensures
            len == self@.len(),
    {
        self.attributes.len()
    }

    /// The markup of the attributes: see [`pairs_markup`].
    pub fn render(&self) -> (out: String)
        ensures
            out@ == pairs_markup(self@),
    {
        render_pairs(&self.attributes)
    }
}

impl Clone for AttrMap {
    fn clone(&self) -> (map: AttrMap)
        ensures
            map@ == self@,
    {
        let mut attributes: Vec<(String, String)> = Vec::new();
        let mut i: usize = 0;
        while i < self.attributes.len()
            invariant
                i <= self.attributes@.len(),
                attributes@.len() == i,
                forall|k: int|
                    0 <= k < i ==> (#[trigger] attributes@[k]).0@ == self.attributes@[k].0@
                        && attributes@[k].1@ == self.attributes@[k].1@,
            decreases self.attributes@.len() - i,
        {
            attributes.push((self.attributes[i].0.clone(), self.attributes[i].1.clone()));
            i += 1;
        }
        assert(pairs_view(attributes@) =~= self@);
        AttrMap { attributes }
    }
}

/// A value that can stand in an attribute or in a text: it is written as the
/// text that [`AttrValue::text`] gives.
pub trait AttrValue {
    /// The text of the value.
    open spec fn text(&self) -> Seq<char> {
        arbitrary()
    }

    /// The value as text.
    fn render(&self) -> (out: String)
        ensures
            out@ == self.text(),
    ;
}

impl AttrValue for String {
    open spec fn text(&self) -> Seq<char> {
        self@
    }

    fn render(&self) -> (out: String) {
        self.clone()
    }
}

impl AttrValue for &str {
    open spec fn text(&self) -> Seq<char> {
        self@
    }

    fn render(&self) -> (out: String) {
        String::from_str(*self)
    }
}

impl AttrValue for bool {
    open spec fn text(&self) -> Seq<char> {
        if *self {
            "true"@
        } else {
            "false"@
        }
    }

    fn render(&self) -> (out: String) {
        if *self {
            String::from_str("true")
        } else {
            String::from_str("false")
        }
    }
}

impl AttrValue for u8 {
    open spec fn text(&self) -> Seq<char> {
        decimal(*self as nat)
    }

    fn render(&self) -> (out: String) {
        to_decimal(*self as u128)
    }
}

impl AttrValue for u16 {
    open spec fn text(&self) -> Seq<char> {
        decimal(*self as nat)
    }

    fn render(&self) -> (out: String) {
        to_decimal(*self as u128)
    }
}

impl AttrValue for u32 {
    open spec fn text(&self) -> Seq<char> {
        decimal(*self as nat)
    }

    fn render(&self) -> (out: String) {
        to_decimal(*self as u128)
    }
}

impl AttrValue for u64 {
    open spec fn text(&self) -> Seq<char> {
        decimal(*self as nat)
    }

    fn render(&self) -> (out: String) {
        to_decimal(*self as u128)
    }
}

impl AttrValue for usize {
    open spec fn text(&self) -> Seq<char> {
        decimal(*self as nat)
    }

    fn render(&self) -> (out: String) {
        to_decimal(*self as u128)
    }
}

impl AttrValue for i8 {
    open spec fn text(&self) -> Seq<char> {
        signed_decimal(*self as int)
    }

    fn render(&self) -> (out: String) {
        to_signed_decimal(*self as i128)
    }
}

impl AttrValue for i16 {
    open spec fn text(&self) -> Seq<char> {
        signed_decimal(*self as int)
    }

    fn render(&self) -> (out: String) {
        to_signed_decimal(*self as i128)
    }
}

impl AttrValue for i32 {
    open spec fn text(&self) -> Seq<char> {
        signed_decimal(*self as int)
    }

    fn render(&self) -> (out: String) {
        to_signed_decimal(*self as i128)
    }
}

impl AttrValue for i64 {
    open spec fn text(&self) -> Seq<char> {
        signed_decimal(*self as int)
    }

    fn render(&self) -> (out: String) {
        to_signed_decimal(*self as i128)
    }
}

impl AttrValue for isize {
    open spec fn text(&self) -> Seq<char> {
        signed_decimal(*self as int)
    }

    fn render(&self) -> (out: String) {
        to_signed_decimal(*self as i128)
    }
}

impl AttrValue for i128 {
    open spec fn text(&self) -> Seq<char> {
        signed_decimal(*self as int)
    }

    fn render(&self) -> (out: String) {
        to_signed_decimal(*self)
    }
}

/// The attribute `key` with the value `value` as text.
pub fn attribute<V: AttrValue>(key: &str, value: &V) -> (pair: (String, String))
    ensures
        pair.0@ == key@,
        pair.1@ == value.text(),
{
    (String::from_str(key), value.render())
}

} // verus!
