//! An element's HTML attributes: a small map from attribute names to values, kept as a
//! vector of `(name, value)` pairs in insertion order.

use vstd::prelude::*;
use vstd::std_specs::cmp::PartialEqSpec;

verus! {

/// The value of an element attribute.
#[derive(Clone, Debug)]
pub enum AttributeValue {
    /// A textual attribute, such as `class="row"`.
    String(String),
    /// A boolean attribute, such as `disabled`: present when `true`, absent when `false`.
    Bool(bool),
}

/// What an [`AttributeValue`] stands for, as a mathematical value.
pub enum AttributeValueModel {
    Text(Seq<char>),
    Flag(bool),
}

impl View for AttributeValue {
    type V = AttributeValueModel;

    open spec fn view(&self) -> AttributeValueModel {
        match self {
            AttributeValue::String(s) => AttributeValueModel::Text(s@),
            AttributeValue::Bool(b) => AttributeValueModel::Flag(*b),
        }
    }
}

impl PartialEq for AttributeValue {
    fn eq(&self, other: &Self) -> (r: bool) {
        match (self, other) {
            (AttributeValue::String(a), AttributeValue::String(b)) => *a == *b,
            (AttributeValue::Bool(a), AttributeValue::Bool(b)) => *a == *b,
            _ => false,
        }
    }
}

impl vstd::std_specs::cmp::PartialEqSpecImpl for AttributeValue {
    open spec fn obeys_eq_spec() -> bool {
        true
    }

    open spec fn eq_spec(&self, other: &AttributeValue) -> bool {
        self@ == other@
    }
}

impl AttributeValue {
    /// The text that this value gives the DOM attribute of the same name, or `None` where the
    /// attribute is left off: a string is written as it is, `true` as the empty string, and
    /// `false` not at all.
    pub fn dom_value(&self) -> (r: Option<&str>)
        ensures
            match self@ {
                AttributeValueModel::Text(t) => r is Some && r->0@ == t,
                AttributeValueModel::Flag(b) => if b {
                    r is Some && r->0@ == Seq::<char>::empty()
                } else {
                    r is None
                },
            },
    {
        match self {
            AttributeValue::String(s) => Some(s.as_str()),
            AttributeValue::Bool(b) => {
                if *b {
                    proof {
                        reveal_strlit("");
                    }
                    Some("")
                } else {
                    None
                }
            },
        }
    }
}

/// A sequence of `(name, value)` pairs in which no name occurs twice.
pub open spec fn distinct_keys(pairs: Seq<(Seq<char>, AttributeValueModel)>) -> bool {
    forall|i: int, j: int|
        0 <= i < pairs.len() && 0 <= j < pairs.len() && i != j ==> #[trigger] pairs[i].0
            != #[trigger] pairs[j].0
}

/// The map that a sequence of `(name, value)` pairs describes; a later pair for a name
/// overrides an earlier one.
pub open spec fn pairs_to_map(pairs: Seq<(Seq<char>, AttributeValueModel)>) -> Map<
    Seq<char>,
    AttributeValueModel,
>
    decreases pairs.len(),
{
    if pairs.len() == 0 {
        Map::empty()
    } else {
        pairs_to_map(pairs.drop_last()).insert(pairs.last().0, pairs.last().1)
    }
}

/// The map of any sequence of pairs is finite, and holds exactly the names that occur in it.
pub proof fn lemma_pairs_to_map_domain(pairs: Seq<(Seq<char>, AttributeValueModel)>)
    ensures
        pairs_to_map(pairs).dom().finite(),
        forall|k: Seq<char>|
            #[trigger] pairs_to_map(pairs).contains_key(k) <==> exists|i: int|
                0 <= i < pairs.len() && #[trigger] pairs[i].0 == k,
    decreases pairs.len(),
{
    if pairs.len() > 0 {
        let init = pairs.drop_last();
        lemma_pairs_to_map_domain(init);
        assert forall|k: Seq<char>| #[trigger]
            pairs_to_map(pairs).contains_key(k) implies exists|i: int|
                0 <= i < pairs.len() && #[trigger] pairs[i].0 == k by {
            if k != pairs.last().0 {
                let i = choose|i: int| 0 <= i < init.len() && #[trigger] init[i].0 == k;
                assert(pairs[i].0 == k);
            } else {
                assert(pairs[pairs.len() - 1].0 == k);
            }
        }
        assert forall|k: Seq<char>|
            (exists|i: int| 0 <= i < pairs.len() && #[trigger] pairs[i].0 == k) implies #[trigger]
            pairs_to_map(pairs).contains_key(k) by {
            let i = choose|i: int| 0 <= i < pairs.len() && #[trigger] pairs[i].0 == k;
            if i < pairs.len() - 1 {
                assert(init[i].0 == k);
            }
        }
    }
}

/// The map of `pairs` is finite, has one entry per pair, gives each pair's value for its name,
/// and holds no other name.
pub open spec fn pairs_describe_map(pairs: Seq<(Seq<char>, AttributeValueModel)>) -> bool {
    &&& pairs_to_map(pairs).dom().finite()
    &&& pairs_to_map(pairs).len() == pairs.len()
    &&& forall|i: int|
        0 <= i < pairs.len() ==> #[trigger] pairs_to_map(pairs)[pairs[i].0] == pairs[i].1
    &&& forall|k: Seq<char>|
        #[trigger] pairs_to_map(pairs).contains_key(k) <==> exists|i: int|
            0 <= i < pairs.len() && #[trigger] pairs[i].0 == k
}

/// For pairs with distinct names, the map has one entry per pair, and each pair's value
/// is what the map gives for its name.
pub proof fn lemma_pairs_to_map_entries(pairs: Seq<(Seq<char>, AttributeValueModel)>)
    requires
        distinct_keys(pairs),
    ensures
        pairs_describe_map(pairs),
        pairs_to_map(pairs).dom().finite(),
        pairs_to_map(pairs).len() == pairs.len(),
        forall|i: int|
            0 <= i < pairs.len() ==> #[trigger] pairs_to_map(pairs)[pairs[i].0] == pairs[i].1,
        forall|k: Seq<char>|
            #[trigger] pairs_to_map(pairs).contains_key(k) <==> exists|i: int|
                0 <= i < pairs.len() && #[trigger] pairs[i].0 == k,
    decreases pairs.len(),
{
    lemma_pairs_to_map_domain(pairs);
    if pairs.len() > 0 {
        let init = pairs.drop_last();
        assert(distinct_keys(init)) by {
            assert forall|i: int, j: int|
                0 <= i < init.len() && 0 <= j < init.len() && i != j implies #[trigger] init[i].0
                != #[trigger] init[j].0 by {
                assert(pairs[i] == init[i] && pairs[j] == init[j]);
            }
        }
        lemma_pairs_to_map_entries(init);
        let last = pairs.last();
        assert(!pairs_to_map(init).contains_key(last.0)) by {
            if pairs_to_map(init).contains_key(last.0) {
                let i = choose|i: int| 0 <= i < init.len() && #[trigger] init[i].0 == last.0;
                assert(pairs[i].0 == pairs[pairs.len() - 1].0);
            }
        }
        assert forall|i: int| 0 <= i < pairs.len() implies #[trigger] pairs_to_map(pairs)[pairs[i].0]
            == pairs[i].1 by {
            if i < pairs.len() - 1 {
                assert(init[i] == pairs[i]);
                assert(pairs[i].0 != pairs[pairs.len() - 1].0);
            }
        }
    }
}

/// Setting the value of the `i`-th pair sets the value of its name in the map.
pub proof fn lemma_pairs_to_map_update(
    pairs: Seq<(Seq<char>, AttributeValueModel)>,
    i: int,
    v: AttributeValueModel,
)
    requires
        distinct_keys(pairs),
        0 <= i < pairs.len(),
    ensures
        pairs_to_map(pairs.update(i, (pairs[i].0, v))) == pairs_to_map(pairs).insert(pairs[i].0, v),
    decreases pairs.len(),
{
    let upd = pairs.update(i, (pairs[i].0, v));
    let init = pairs.drop_last();
    if i == pairs.len() - 1 {
        assert(upd.drop_last() =~= init);
        assert(pairs_to_map(upd) =~= pairs_to_map(pairs).insert(pairs[i].0, v));
    } else {
        assert(distinct_keys(init)) by {
            assert forall|a: int, b: int|
                0 <= a < init.len() && 0 <= b < init.len() && a != b implies #[trigger] init[a].0
                != #[trigger] init[b].0 by {
                assert(pairs[a] == init[a] && pairs[b] == init[b]);
            }
        }
        lemma_pairs_to_map_update(init, i, v);
        assert(upd.drop_last() =~= init.update(i, (init[i].0, v)));
        assert(pairs[i].0 != pairs.last().0);
        assert(pairs_to_map(upd) =~= pairs_to_map(pairs).insert(pairs[i].0, v));
    }
}

/// An element's HTML attributes.
///
/// Backed by a `Vec` rather than a hash map: elements almost always have a handful of
/// attributes, for which a small vector is cheaper to build and to compare. Equality is
/// order-insensitive (it compares the maps the two collections describe), and names are
/// unique: `insert` replaces any existing value for the same name.
#[derive(Debug)]
pub struct Attributes {
    entries: Vec<(String, AttributeValue)>,
}

impl Attributes {
    /// The `(name, value)` pairs, in insertion order.
    pub closed spec fn pairs(&self) -> Seq<(Seq<char>, AttributeValueModel)> {
        self.entries@.map_values(|e: (String, AttributeValue)| (e.0@, e.1@))
    }

    #[verifier::type_invariant]
    spec fn names_are_unique(&self) -> bool {
        distinct_keys(self.pairs())
    }
}

impl View for Attributes {
    type V = Map<Seq<char>, AttributeValueModel>;

    closed spec fn view(&self) -> Map<Seq<char>, AttributeValueModel> {
        pairs_to_map(self.pairs())
    }
}

impl Attributes {
    /// Create an empty attribute collection.
    pub fn new() -> (r: Self)
        ensures
            r@ == Map::<Seq<char>, AttributeValueModel>::empty(),
            r.pairs() == Seq::<(Seq<char>, AttributeValueModel)>::empty(),
    {
        let r = Attributes { entries: Vec::new() };
        assert(r.pairs() =~= Seq::<(Seq<char>, AttributeValueModel)>::empty());
        r
    }

    /// The position of the pair named `key`, if there is one.
    fn position(&self, key: &String) -> (r: Option<usize>)
        ensures
            match r {
                Some(i) => i < self.pairs().len() && self.pairs()[i as int].0 == key@,
                None => forall|i: int|
                    0 <= i < self.pairs().len() ==> #[trigger] self.pairs()[i].0 != key@,
            },
    {
        let n = self.entries.len();
        let mut i: usize = 0;
        while i < n
            invariant
                n == self.entries@.len(),
                i <= n,
                forall|j: int| 0 <= j < i ==> #[trigger] self.pairs()[j].0 != key@,
            decreases n - i,
        {
            if self.entries[i].0 == *key {
                return Some(i);
            }
            i += 1;
        }
        None
    }

    /// Insert an attribute, replacing (and returning) any existing value for the same name.
    /// A new name goes after all others; a replaced one keeps its place.
    pub fn insert(&mut self, key: String, value: AttributeValue) -> (r: Option<AttributeValue>)
        ensures
            final(self)@ == old(self)@.insert(key@, value@),
            match r {
                Some(v) => old(self)@.contains_key(key@) && v@ == old(self)@[key@],
                None => !old(self)@.contains_key(key@),
            },
            r is None ==> final(self).pairs() == old(self).pairs().push((key@, value@)),
            r is Some ==> exists|i: int|
                0 <= i < old(self).pairs().len() && #[trigger] old(self).pairs()[i].0 == key@
                    && final(self).pairs() == old(self).pairs().update(i, (key@, value@)),
    {
        proof {
            use_type_invariant(&*self);
            lemma_pairs_to_map_entries(self.pairs());
        }
        let ghost old_pairs = self.pairs();
        let pos = self.position(&key);
        let ghost kv = key@;
        let ghost vv = value@;
        let mut entries: Vec<(String, AttributeValue)> = Vec::new();
        std::mem::swap(&mut entries, &mut self.entries);
        assert(entries@.map_values(|e: (String, AttributeValue)| (e.0@, e.1@)) == old_pairs);
        match pos {
            Some(i) => {
                entries.push((key, value));
                let (_, old_value) = entries.swap_remove(i);
                let ghost new_pairs = entries@.map_values(
                    |e: (String, AttributeValue)| (e.0@, e.1@),
                );
                assert(new_pairs =~= old_pairs.update(i as int, (kv, vv)));
                proof {
                    lemma_pairs_to_map_update(old_pairs, i as int, vv);
                    assert(distinct_keys(new_pairs)) by {
                        assert forall|a: int, b: int|
                            0 <= a < new_pairs.len() && 0 <= b < new_pairs.len() && a
                                != b implies #[trigger] new_pairs[a].0 != #[trigger] new_pairs[b].0 by {
                            assert(new_pairs[a].0 == old_pairs[a].0);
                            assert(new_pairs[b].0 == old_pairs[b].0);
                        }
                    }
                }
                self.entries = entries;
                assert(self.pairs() == new_pairs);
                Some(old_value)
            },
            None => {
                entries.push((key, value));
                let ghost new_pairs = entries@.map_values(
                    |e: (String, AttributeValue)| (e.0@, e.1@),
                );
                assert(new_pairs =~= old_pairs.push((kv, vv)));
                assert(new_pairs.drop_last() =~= old_pairs);
                proof {
                    assert(distinct_keys(new_pairs)) by {
                        assert forall|a: int, b: int|
                            0 <= a < new_pairs.len() && 0 <= b < new_pairs.len() && a
                                != b implies #[trigger] new_pairs[a].0 != #[trigger] new_pairs[b].0 by {
                            if a < old_pairs.len() && b < old_pairs.len() {
                                assert(new_pairs[a] == old_pairs[a]);
                                assert(new_pairs[b] == old_pairs[b]);
                            } else if a < old_pairs.len() {
                                assert(new_pairs[a] == old_pairs[a]);
                            } else {
                                assert(new_pairs[b] == old_pairs[b]);
                            }
                        }
                    }
                }
                self.entries = entries;
                assert(self.pairs() == new_pairs);
                None
            },
        }
    }

    /// Get the value associated with `key`, if present.
    pub fn get(&self, key: &str) -> (r: Option<&AttributeValue>)
        ensures
            match r {
                Some(v) => self@.contains_key(key@) && v@ == self@[key@],
                None => !self@.contains_key(key@),
            },
    {
        proof {
            use_type_invariant(self);
            lemma_pairs_to_map_entries(self.pairs());
        }
        let owned: String = key.to_owned();
        match self.position(&owned) {
            Some(i) => {
                assert(self.pairs()[i as int].1 == self.entries@[i as int].1@);
                Some(&self.entries[i].1)
            },
            None => None,
        }
    }

    /// The `(name, value)` pairs, in insertion order; each name occurs once.
    pub fn iter(&self) -> (r: &[(String, AttributeValue)])
        ensures
            r@.len() == self@.len(),
            r@.map_values(|e: (String, AttributeValue)| (e.0@, e.1@)) == self.pairs(),
            distinct_keys(self.pairs()),
            pairs_to_map(self.pairs()) == self@,
    {
        proof {
            use_type_invariant(self);
            lemma_pairs_to_map_entries(self.pairs());
        }
        self.entries.as_slice()
    }

    /// Number of attributes.
    pub fn len(&self) -> (r: usize)
        ensures
            r == self@.len(),
            r == self.pairs().len(),
    {
        proof {
            use_type_invariant(self);
            lemma_pairs_to_map_entries(self.pairs());
        }
        self.entries.len()
    }

    /// Whether there are no attributes.
    pub fn is_empty(&self) -> (r: bool)
        ensures
            r == (self@.len() == 0),
            r == (self@ == Map::<Seq<char>, AttributeValueModel>::empty()),
    {
        proof {
            use_type_invariant(self);
            lemma_pairs_to_map_entries(self.pairs());
            if self.pairs().len() == 0 {
                assert(self@ =~= Map::<Seq<char>, AttributeValueModel>::empty());
            } else {
                assert(self@.contains_key(self.pairs()[0].0));
            }
        }
        self.entries.is_empty()
    }
}

impl Default for Attributes {
    fn default() -> (r: Self)
        ensures
            r@ == Map::<Seq<char>, AttributeValueModel>::empty(),
    {
        Attributes::new()
    }
}

impl Clone for Attributes {
    fn clone(&self) -> (r: Self)
        ensures
            r@ == self@,
            r.pairs() == self.pairs(),
    {
        proof {
            use_type_invariant(self);
            assert(distinct_keys(self.pairs()));
        }
        let n = self.entries.len();
        let mut entries: Vec<(String, AttributeValue)> = Vec::new();
        let mut i: usize = 0;
        while i < n
            invariant
                n == self.entries@.len(),
                i <= n,
                entries@.len() == i,
                forall|j: int|
                    0 <= j < i ==> (#[trigger] entries@[j]).0@ == self.entries@[j].0@
                        && entries@[j].1@ == self.entries@[j].1@,
            decreases n - i,
        {
            let name = self.entries[i].0.clone();
            let value = match &self.entries[i].1 {
                AttributeValue::String(s) => AttributeValue::String(s.clone()),
                AttributeValue::Bool(b) => AttributeValue::Bool(*b),
            };
            entries.push((name, value));
            i += 1;
        }
        assert(entries@.map_values(|e: (String, AttributeValue)| (e.0@, e.1@)) =~= self.pairs());
        Attributes { entries }
    }
}

impl PartialEq for Attributes {
    fn eq(&self, other: &Self) -> (r: bool) {
        proof {
            use_type_invariant(self);
            use_type_invariant(other);
            lemma_pairs_to_map_entries(self.pairs());
            lemma_pairs_to_map_entries(other.pairs());
        }
        let n = self.entries.len();
        if n != other.entries.len() {
            return false;
        }
        let mut i: usize = 0;
        while i < n
            invariant
                n == self.entries@.len(),
                n == other.entries@.len(),
                i <= n,
                pairs_describe_map(self.pairs()),
                pairs_describe_map(other.pairs()),
                forall|j: int|
                    0 <= j < i ==> other@.contains_key(#[trigger] self.pairs()[j].0)
                        && other@[self.pairs()[j].0] == self.pairs()[j].1,
            decreases n - i,
        {
            match other.position(&self.entries[i].0) {
                None => {
                    assert(self@.contains_key(self.pairs()[i as int].0));
                    return false;
                },
                Some(j) => {
                    assert(other@[other.pairs()[j as int].0] == other.pairs()[j as int].1);
                    if !(other.entries[j].1 == self.entries[i].1) {
                        assert(self@[self.pairs()[i as int].0] == self.pairs()[i as int].1);
                        return false;
                    }
                },
            }
            i += 1;
        }
        proof {
            assert(self@.dom().subset_of(other@.dom())) by {
                assert forall|k: Seq<char>| self@.contains_key(k) implies other@.contains_key(k) by {
                    let j = choose|j: int| 0 <= j < self.pairs().len() && #[trigger] self.pairs()[j].0 == k;
                    assert(other@.contains_key(self.pairs()[j].0));
                }
            }
            vstd::set_lib::lemma_subset_equality(self@.dom(), other@.dom());
            assert forall|k: Seq<char>| self@.contains_key(k) implies self@[k] == other@[k] by {
                let j = choose|j: int| 0 <= j < self.pairs().len() && #[trigger] self.pairs()[j].0 == k;
                assert(other@[self.pairs()[j].0] == self.pairs()[j].1);
            }
            assert(self@ =~= other@);
        }
        true
    }
}

impl vstd::std_specs::cmp::PartialEqSpecImpl for Attributes {
    open spec fn obeys_eq_spec() -> bool {
        true
    }

    open spec fn eq_spec(&self, other: &Attributes) -> bool {
        self@ == other@
    }
}


/// Reading back a write: after `insert(key, value)`, `get(key)` gives `value`, and every other
/// name keeps what it had.
pub proof fn law_get_after_insert(
    before: Attributes,
    after: Attributes,
    key: Seq<char>,
    value: AttributeValueModel,
)
    requires
        after@ == before@.insert(key, value),
    ensures
        after@.contains_key(key),
        after@[key] == value,
        forall|k: Seq<char>|
            k != key ==> (#[trigger] after@.contains_key(k) == before@.contains_key(k)) && (
            before@.contains_key(k) ==> after@[k] == before@[k]),
{
}

/// Names are unique: inserting a name that is already there replaces its value and keeps the
/// number of attributes; a new name adds one.
pub proof fn law_insert_len(
    before: Attributes,
    after: Attributes,
    key: Seq<char>,
    value: AttributeValueModel,
)
    requires
        after@ == before@.insert(key, value),
    ensures
        after@.len() == if before@.contains_key(key) {
            before@.len()
        } else {
            before@.len() + 1
        },
{
    lemma_pairs_to_map_domain(before.pairs());
}

/// Equality is order-insensitive: inserting two different names in either order gives equal
/// collections.
pub proof fn law_equality_ignores_order(
    base: Attributes,
    a: Attributes,
    b: Attributes,
    k1: Seq<char>,
    v1: AttributeValueModel,
    k2: Seq<char>,
    v2: AttributeValueModel,
)
    requires
        k1 != k2,
        a@ == base@.insert(k1, v1).insert(k2, v2),
        b@ == base@.insert(k2, v2).insert(k1, v1),
    ensures
        a.eq_spec(&b),
{
    assert(a@ =~= b@);
}

/// A name that every pair naming it gives the same value has that value in the map.
proof fn lemma_pairs_to_map_value(
    pairs: Seq<(Seq<char>, AttributeValueModel)>,
    k: Seq<char>,
    v: AttributeValueModel,
)
    requires
        pairs_to_map(pairs).contains_key(k),
        forall|i: int| 0 <= i < pairs.len() && #[trigger] pairs[i].0 == k ==> pairs[i].1 == v,
    ensures
        pairs_to_map(pairs)[k] == v,
    decreases pairs.len(),
{
    if pairs.last().0 != k {
        let init = pairs.drop_last();
        assert forall|i: int| 0 <= i < init.len() && #[trigger] init[i].0 == k implies init[i].1
            == v by {
            assert(pairs[i] == init[i]);
        }
        lemma_pairs_to_map_value(init, k, v);
    } else {
        assert(pairs[pairs.len() - 1].0 == k);
    }
}

/// Equality is order-insensitive for any number of names: inserting the same pairs (with
/// distinct names) into empty collections in any two orders gives equal collections.
/// `pairs_to_map(ps)` is what `Attributes::new` followed by `insert` of each pair of `ps`, in
/// order, gives (see the contracts of `new` and `insert`).
pub proof fn law_equality_ignores_insertion_order(
    a: Attributes,
    b: Attributes,
    ps: Seq<(Seq<char>, AttributeValueModel)>,
    qs: Seq<(Seq<char>, AttributeValueModel)>,
)
    requires
        distinct_keys(ps),
        forall|x: (Seq<char>, AttributeValueModel)| ps.contains(x) <==> qs.contains(x),
        a@ == pairs_to_map(ps),
        b@ == pairs_to_map(qs),
    ensures
        a.eq_spec(&b),
        b.eq_spec(&a),
        a.eq_spec(&a),
{
    lemma_pairs_to_map_entries(ps);
    lemma_pairs_to_map_domain(qs);
    assert forall|k: Seq<char>| #[trigger] a@.contains_key(k) implies b@.contains_key(k) && b@[k]
        == a@[k] by {
        let i = choose|i: int| 0 <= i < ps.len() && #[trigger] ps[i].0 == k;
        assert(ps.contains(ps[i]));
        let j = choose|j: int| 0 <= j < qs.len() && qs[j] == ps[i];
        assert(qs[j].0 == k);
        assert forall|m: int| 0 <= m < qs.len() && #[trigger] qs[m].0 == k implies qs[m].1
            == ps[i].1 by {
            assert(qs.contains(qs[m]));
            let l = choose|l: int| 0 <= l < ps.len() && ps[l] == qs[m];
            assert(ps[l].0 == ps[i].0);
        }
        lemma_pairs_to_map_value(qs, k, ps[i].1);
    }
    assert forall|k: Seq<char>| #[trigger] b@.contains_key(k) implies a@.contains_key(k) by {
        let j = choose|j: int| 0 <= j < qs.len() && #[trigger] qs[j].0 == k;
        assert(qs.contains(qs[j]));
        let i = choose|i: int| 0 <= i < ps.len() && ps[i] == qs[j];
        assert(ps[i].0 == k);
    }
    assert(a@ =~= b@);
}

/// Equality compares names and values: a different value for a name, or a name that only one
/// side has, makes two collections differ.
pub proof fn law_equality_sees_values_and_names(a: Attributes, b: Attributes, k: Seq<char>)
    requires
        a@.contains_key(k),
        !b@.contains_key(k) || b@[k] != a@[k],
    ensures
        !a.eq_spec(&b),
{
}

} // verus!
