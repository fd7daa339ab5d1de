//! Ordered collections of texts: a set of identifiers and a map of notes.
//!
//! Both keep their entries in ascending order without repeats, so that what is
//! written out from them does not depend on the order of earlier changes.

use vstd::prelude::*;

use crate::text::{chars_of, opt_view, same};

verus! {

/// Whether `a` stands before `b` in the order of code points.
pub open spec fn text_before(a: Seq<char>, b: Seq<char>) -> bool
    decreases a.len(),
{
    if b.len() == 0 {
        false
    } else if a.len() == 0 {
        true
    } else {
        a[0] < b[0] || (a[0] == b[0] && text_before(a.skip(1), b.skip(1)))
    }
}

/// No text stands before itself.
pub proof fn lemma_before_irreflexive(a: Seq<char>)
    ensures
        !text_before(a, a),
    decreases a.len(),
{
    if a.len() > 0 {
        lemma_before_irreflexive(a.skip(1));
    }
}

/// Of two different texts one stands before the other.
pub proof fn lemma_before_total(a: Seq<char>, b: Seq<char>)
    ensures
        text_before(a, b) || a == b || text_before(b, a),
    decreases a.len(),
{
    if a.len() > 0 && b.len() > 0 {
        lemma_before_total(a.skip(1), b.skip(1));
        if a[0] == b[0] && a.skip(1) == b.skip(1) {
            assert(a =~= seq![a[0]] + a.skip(1));
            assert(b =~= seq![b[0]] + b.skip(1));
        }
    } else if a.len() == 0 && b.len() == 0 {
        assert(a =~= b);
    }
}

/// The order is transitive.
pub proof fn lemma_before_transitive(a: Seq<char>, b: Seq<char>, c: Seq<char>)
    requires
        text_before(a, b),
        text_before(b, c),
    ensures
        text_before(a, c),
    decreases a.len(),
{
    if a.len() > 0 && a[0] == b[0] && b[0] == c[0] {
        lemma_before_transitive(a.skip(1), b.skip(1), c.skip(1));
    }
}

/// Not both of two texts stand before each other.
pub proof fn lemma_before_asymmetric(a: Seq<char>, b: Seq<char>)
    requires
        text_before(a, b),
    ensures
        !text_before(b, a),
        a != b,
{
    lemma_before_irreflexive(a);
    if text_before(b, a) {
        lemma_before_transitive(a, b, a);
    }
}

/// Whether `a` stands before `b` in the order of code points.
pub fn before(a: &str, b: &str) -> (r: bool)
    ensures
        r == text_before(a@, b@),
{
    let x = chars_of(a);
    let y = chars_of(b);
    let mut i: usize = 0;
    assert(x@.skip(0) =~= x@);
    assert(y@.skip(0) =~= y@);
    while i < x.len() && i < y.len()
        invariant
            i <= x.len(),
            i <= y.len(),
            text_before(a@, b@) == text_before(x@.skip(i as int), y@.skip(i as int)),
        decreases x.len() - i,
    {
        if x[i] != y[i] {
            return x[i] < y[i];
        }
        assert(x@.skip(i as int).skip(1) =~= x@.skip(i as int + 1));
        assert(y@.skip(i as int).skip(1) =~= y@.skip(i as int + 1));
        i += 1;
    }
    i < y.len()
}

/// Whether each text of a list stands before all that follow it.
pub open spec fn ascending(list: Seq<Seq<char>>) -> bool {
    forall|i: int, j: int|
        0 <= i < j < list.len() ==> text_before(#[trigger] list[i], #[trigger] list[j])
}

/// An ascending list holds as many different texts as it is long.
proof fn lemma_ascending_len(list: Seq<Seq<char>>)
    requires
        ascending(list),
    ensures
        list.to_set().finite(),
        list.to_set().len() == list.len(),
{
    assert forall|i: int, j: int| 0 <= i < j < list.len() implies list[i] != list[j] by {
        assert(text_before(list[i], list[j]));
        lemma_before_irreflexive(list[i]);
    }
    assert(list.no_duplicates());
    list.unique_seq_to_set();
    vstd::seq_lib::seq_to_set_is_finite(list);
}

/// Where `id` stands in an ascending list, or where it would have to stand.
fn place(list: &Vec<String>, id: &str) -> (r: usize)
    requires
        ascending(list.deep_view()),
    ensures
        r <= list.len(),
        forall|k: int| 0 <= k < r ==> text_before(#[trigger] list.deep_view()[k], id@),
        r < list.len() ==> !text_before(list.deep_view()[r as int], id@),
{
    let mut i: usize = 0;
    while i < list.len() && before(list[i].as_str(), id)
        invariant
            i <= list.len(),
            forall|k: int| 0 <= k < i ==> text_before(#[trigger] list.deep_view()[k], id@),
        decreases list.len() - i,
    {
        assert(list.deep_view()[i as int] == list[i as int]@);
        i += 1;
    }
    i
}

/// Where a text stands in an ascending list, if it stands there at all.
proof fn lemma_place(list: Seq<Seq<char>>, id: Seq<char>, r: int)
    requires
        ascending(list),
        0 <= r <= list.len(),
        forall|k: int| 0 <= k < r ==> text_before(#[trigger] list[k], id),
        r < list.len() ==> !text_before(list[r], id),
    ensures
        list.contains(id) <==> r < list.len() && list[r] == id,
        r < list.len() && list[r] != id ==> text_before(id, list[r]),
        forall|k: int| r < k < list.len() ==> text_before(id, #[trigger] list[k]),
{
    lemma_before_irreflexive(id);
    if r < list.len() {
        lemma_before_total(list[r], id);
        assert forall|k: int| r < k < list.len() implies text_before(id, #[trigger] list[k]) by {
            assert(text_before(list[r], list[k]));
            if list[r] != id {
                lemma_before_transitive(id, list[r], list[k]);
            }
        }
    }
    if list.contains(id) {
        let k = choose|k: int| 0 <= k < list.len() && list[k] == id;
        assert(k == r);
    }
}

/// A text put in its place keeps the list ascending.
proof fn lemma_insert_ascending(list: Seq<Seq<char>>, id: Seq<char>, r: int)
    requires
        ascending(list),
        0 <= r <= list.len(),
        forall|k: int| 0 <= k < r ==> text_before(#[trigger] list[k], id),
        forall|k: int| r <= k < list.len() ==> text_before(id, #[trigger] list[k]),
    ensures
        ascending(list.insert(r, id)),
        forall|x: Seq<char>|
            #![trigger list.insert(r, id).contains(x)]
            list.insert(r, id).contains(x) <==> list.contains(x) || x == id,
{
    let more = list.insert(r, id);
    assert forall|i: int, j: int| 0 <= i < j < more.len() implies text_before(
        #[trigger] more[i],
        #[trigger] more[j],
    ) by {
        let a = if i < r {
            i
        } else {
            i - 1
        };
        let b = if j < r {
            j
        } else {
            j - 1
        };
        if i != r {
            assert(more[i] == list[a]);
        }
        if j != r {
            assert(more[j] == list[b]);
        }
    }
    assert forall|x: Seq<char>|
        #![trigger list.insert(r, id).contains(x)]
        list.insert(r, id).contains(x) <==> list.contains(x) || x == id by {
        if list.contains(x) {
            let k = choose|k: int| 0 <= k < list.len() && list[k] == x;
            if k < r {
                assert(more[k] == x);
            } else {
                assert(more[k + 1] == x);
            }
        }
        if x == id {
            assert(more[r] == x);
        }
        if more.contains(x) {
            let k = choose|k: int| 0 <= k < more.len() && more[k] == x;
            if k < r {
                assert(list[k] == x);
            } else if k > r {
                assert(list[k - 1] == x);
            }
        }
    }
}

/// Taking one text out keeps the list ascending.
proof fn lemma_remove_ascending(list: Seq<Seq<char>>, r: int)
    requires
        ascending(list),
        0 <= r < list.len(),
    ensures
        ascending(list.remove(r)),
        forall|x: Seq<char>|
            #![trigger list.remove(r).contains(x)]
            list.remove(r).contains(x) <==> list.contains(x) && x != list[r],
{
    let less = list.remove(r);
    assert forall|i: int, j: int| 0 <= i < j < less.len() implies text_before(
        #[trigger] less[i],
        #[trigger] less[j],
    ) by {
        let a = if i < r {
            i
        } else {
            i + 1
        };
        let b = if j < r {
            j
        } else {
            j + 1
        };
        assert(less[i] == list[a] && less[j] == list[b]);
    }
    assert forall|x: Seq<char>|
        #![trigger list.remove(r).contains(x)]
        list.remove(r).contains(x) <==> list.contains(x) && x != list[r] by {
        if list.contains(x) && x != list[r] {
            let k = choose|k: int| 0 <= k < list.len() && list[k] == x;
            if k < r {
                assert(less[k] == x);
            } else {
                assert(less[k - 1] == x);
            }
        }
        if less.contains(x) {
            let k = choose|k: int| 0 <= k < less.len() && less[k] == x;
            let a = if k < r {
                k
            } else {
                k + 1
            };
            assert(list[a] == x);
            if a < r {
                lemma_before_asymmetric(list[a], list[r]);
            } else {
                lemma_before_asymmetric(list[r], list[a]);
            }
        }
    }
}

// ---------------------------------------------------------------------------
// A set of identifiers
// ---------------------------------------------------------------------------

/// A set of identifiers, kept in ascending order without repeats.
#[derive(Debug, PartialEq, Eq)]
pub struct IdSet {
    items: Vec<String>,
}

impl View for IdSet {
    type V = Set<Seq<char>>;

    closed spec fn view(&self) -> Set<Seq<char>> {
        Set::new(|x: Seq<char>| self.items.deep_view().contains(x))
    }
}

impl IdSet {
    #[verifier::type_invariant]
    spec fn inv(self) -> bool {
        ascending(self.items.deep_view())
    }

    /// A set without identifiers.
    pub fn new() -> (r: IdSet)
        ensures
            r@ == Set::<Seq<char>>::empty(),
    {
        let r = IdSet { items: Vec::new() };
        assert(r@ =~= Set::<Seq<char>>::empty());
        r
    }

    /// Whether `id` is in the set.
    pub fn contains(&self, id: &str) -> (r: bool)
        ensures
            r == self@.contains(id@),
    {
        proof {
            use_type_invariant(self);
        }
        let i = place(&self.items, id);
        proof {
            lemma_place(self.items.deep_view(), id@, i as int);
        }
        i < self.items.len() && same(self.items[i].as_str(), id)
    }

    /// Put `id` into the set; the result says whether it was missing.
    pub fn insert(&mut self, id: String) -> (r: bool)
        ensures
            final(self)@ == old(self)@.insert(id@),
            r == !old(self)@.contains(id@),
    {
        proof {
            use_type_invariant(&*self);
        }
        let i = place(&self.items, id.as_str());
        let ghost list = self.items.deep_view();
        proof {
            lemma_place(list, id@, i as int);
        }
        if i < self.items.len() && same(self.items[i].as_str(), id.as_str()) {
            assert(self@ =~= old(self)@.insert(id@));
            return false;
        }
        let ghost was = *self;
        let mut items: Vec<String> = Vec::new();
        std::mem::swap(&mut items, &mut self.items);
        let ghost text = id@;
        items.insert(i, id);
        proof {
            assert(items.deep_view() =~= list.insert(i as int, text));
            lemma_insert_ascending(list, text, i as int);
        }
        self.items = items;
        assert(self@ =~= was@.insert(text));
        true
    }

    /// Take `id` out of the set; the result says whether it was there.
    pub fn remove(&mut self, id: &str) -> (r: bool)
        ensures
            final(self)@ == old(self)@.remove(id@),
            r == old(self)@.contains(id@),
    {
        proof {
            use_type_invariant(&*self);
        }
        let i = place(&self.items, id);
        let ghost list = self.items.deep_view();
        proof {
            lemma_place(list, id@, i as int);
        }
        if i < self.items.len() && same(self.items[i].as_str(), id) {
            let ghost was = *self;
            let mut items: Vec<String> = Vec::new();
            std::mem::swap(&mut items, &mut self.items);
            let _ = items.remove(i);
            proof {
                assert(items.deep_view() =~= list.remove(i as int));
                lemma_remove_ascending(list, i as int);
            }
            self.items = items;
            assert(self@ =~= was@.remove(id@));
            true
        } else {
            assert(self@ =~= old(self)@.remove(id@));
            false
        }
    }

    /// How many identifiers the set holds.
    pub fn len(&self) -> (r: usize)
        ensures
            self@.finite(),
            r == self@.len(),
    {
        proof {
            use_type_invariant(self);
            lemma_ascending_len(self.items.deep_view());
            assert(self@ =~= self.items.deep_view().to_set());
        }
        self.items.len()
    }

    /// Whether the set holds nothing.
    pub fn is_empty(&self) -> (r: bool)
        ensures
            r == (self@ == Set::<Seq<char>>::empty()),
    {
        let r = self.items.len() == 0;
        proof {
            if r {
                assert(self@ =~= Set::<Seq<char>>::empty());
            } else {
                assert(self.items.deep_view()[0] == self.items[0]@);
                assert(self@.contains(self.items[0]@));
            }
        }
        r
    }

    /// The identifiers in ascending order.
    pub fn to_vec(&self) -> (r: Vec<String>)
        ensures
            ascending(r.deep_view()),
            forall|x: Seq<char>| r.deep_view().contains(x) <==> self@.contains(x),
    {
        proof {
            use_type_invariant(self);
        }
        crate::text::copied(&self.items)
    }
}

impl Clone for IdSet {
    fn clone(&self) -> (r: IdSet)
        ensures
            r@ == self@,
    {
        proof {
            use_type_invariant(self);
        }
        let items = crate::text::copied(&self.items);
        assert(items.deep_view() =~= self.items.deep_view());
        let r = IdSet { items };
        assert(r@ =~= self@);
        r
    }
}

impl Default for IdSet {
    fn default() -> (r: IdSet)
        ensures
            r@ == Set::<Seq<char>>::empty(),
    {
        IdSet::new()
    }
}

// ---------------------------------------------------------------------------
// A map from identifiers to notes
// ---------------------------------------------------------------------------

/// Notes keyed by identifier, kept in ascending order of the keys.
#[derive(Debug, PartialEq, Eq)]
pub struct NoteMap {
    keys: Vec<String>,
    notes: Vec<String>,
}

impl View for NoteMap {
    type V = Map<Seq<char>, Seq<char>>;

    closed spec fn view(&self) -> Map<Seq<char>, Seq<char>> {
        note_map(self.keys.deep_view(), self.notes.deep_view())
    }
}

/// The map that two lists of the same length give.
spec fn note_map(keys: Seq<Seq<char>>, notes: Seq<Seq<char>>) -> Map<Seq<char>, Seq<char>> {
    Map::new(|k: Seq<char>| keys.contains(k), |k: Seq<char>| notes[keys.index_of(k)])
}

/// In an ascending list each text stands at one place only.
proof fn lemma_index_of(keys: Seq<Seq<char>>, i: int)
    requires
        ascending(keys),
        0 <= i < keys.len(),
    ensures
        keys.index_of(keys[i]) == i,
{
    let j = keys.index_of(keys[i]);
    assert(keys.contains(keys[i]));
    assert(0 <= j < keys.len() && keys[j] == keys[i]);
    lemma_before_irreflexive(keys[i]);
    if j < i {
        assert(text_before(keys[j], keys[i]));
    } else if i < j {
        assert(text_before(keys[i], keys[j]));
    }
}

impl NoteMap {
    #[verifier::type_invariant]
    spec fn inv(self) -> bool {
        ascending(self.keys.deep_view()) && self.keys.len() == self.notes.len()
    }

    /// How many notes there are.
    pub fn len(&self) -> (r: usize)
        ensures
            self@.dom().finite(),
            r == self@.dom().len(),
    {
        proof {
            use_type_invariant(self);
            lemma_ascending_len(self.keys.deep_view());
            assert(self@.dom() =~= self.keys.deep_view().to_set());
        }
        self.keys.len()
    }

    /// A map without notes.
    pub fn new() -> (r: NoteMap)
        ensures
            r@ == Map::<Seq<char>, Seq<char>>::empty(),
    {
        let r = NoteMap { keys: Vec::new(), notes: Vec::new() };
        assert(r@ =~= Map::<Seq<char>, Seq<char>>::empty());
        r
    }

    /// The note of `id`.
    pub fn get(&self, id: &str) -> (r: Option<&str>)
        ensures
            opt_view(r) == (if self@.dom().contains(id@) {
                Some(self@[id@])
            } else {
                None
            }),
    {
        proof {
            use_type_invariant(self);
        }
        let i = place(&self.keys, id);
        proof {
            lemma_place(self.keys.deep_view(), id@, i as int);
        }
        if i < self.keys.len() && same(self.keys[i].as_str(), id) {
            proof {
                lemma_index_of(self.keys.deep_view(), i as int);
                assert(self.notes.deep_view()[i as int] == self.notes[i as int]@);
            }
            Some(self.notes[i].as_str())
        } else {
            None
        }
    }

    /// Keep `note` under `id`, in place of an earlier one.
    pub fn insert(&mut self, id: String, note: String)
        ensures
            final(self)@ == old(self)@.insert(id@, note@),
    {
        proof {
            use_type_invariant(&*self);
        }
        let i = place(&self.keys, id.as_str());
        let ghost keys = self.keys.deep_view();
        let ghost notes = self.notes.deep_view();
        let ghost (k, v) = (id@, note@);
        proof {
            lemma_place(keys, k, i as int);
        }
        let found = i < self.keys.len() && same(self.keys[i].as_str(), id.as_str());
        let mut now = NoteMap::new();
        std::mem::swap(&mut now, self);
        let NoteMap { keys: mut ks, notes: mut ns } = now;
        if found {
            ns.set(i, note);
            proof {
                assert(ns.deep_view() =~= notes.update(i as int, v));
                assert forall|x: Seq<char>| keys.contains(x) implies #[trigger] note_map(
                    keys,
                    notes.update(i as int, v),
                )[x] == note_map(keys, notes).insert(k, v)[x] by {
                    let j = keys.index_of(x);
                    lemma_index_of(keys, i as int);
                    lemma_index_of(keys, j);
                }
                assert(note_map(keys, notes.update(i as int, v)) =~= note_map(keys, notes).insert(
                    k,
                    v,
                ));
            }
        } else {
            ks.insert(i, id);
            ns.insert(i, note);
            proof {
                let more = keys.insert(i as int, k);
                let texts = notes.insert(i as int, v);
                assert(ks.deep_view() =~= more);
                assert(ns.deep_view() =~= texts);
                lemma_insert_ascending(keys, k, i as int);
                assert forall|x: Seq<char>| more.contains(x) implies #[trigger] note_map(
                    more,
                    texts,
                )[x] == note_map(keys, notes).insert(k, v)[x] by {
                    if x == k {
                        assert(more[i as int] == k);
                        lemma_index_of(more, i as int);
                    } else {
                        let j = keys.index_of(x);
                        assert(keys.contains(x));
                        let a = if j < i {
                            j
                        } else {
                            j + 1
                        };
                        assert(more[a] == x);
                        lemma_index_of(more, a);
                    }
                }
                assert(note_map(more, texts) =~= note_map(keys, notes).insert(k, v));
            }
        }
        *self = NoteMap { keys: ks, notes: ns };
    }

    /// Drop the note of `id`; the result says whether there was one.
    pub fn remove(&mut self, id: &str) -> (r: bool)
        ensures
            final(self)@ == old(self)@.remove(id@),
            r == old(self)@.dom().contains(id@),
    {
        proof {
            use_type_invariant(&*self);
        }
        let i = place(&self.keys, id);
        let ghost keys = self.keys.deep_view();
        let ghost notes = self.notes.deep_view();
        let ghost k = id@;
        proof {
            lemma_place(keys, k, i as int);
        }
        if !(i < self.keys.len() && same(self.keys[i].as_str(), id)) {
            assert(self@ =~= old(self)@.remove(k));
            return false;
        }
        let mut now = NoteMap::new();
        std::mem::swap(&mut now, self);
        let NoteMap { keys: mut ks, notes: mut ns } = now;
        let _ = ks.remove(i);
        let _ = ns.remove(i);
        proof {
            let less = keys.remove(i as int);
            let texts = notes.remove(i as int);
            assert(ks.deep_view() =~= less);
            assert(ns.deep_view() =~= texts);
            lemma_remove_ascending(keys, i as int);
            assert forall|x: Seq<char>| less.contains(x) implies #[trigger] note_map(less, texts)[x]
                == note_map(keys, notes).remove(k)[x] by {
                let j = keys.index_of(x);
                assert(keys.contains(x));
                let a = if j < i {
                    j
                } else {
                    j - 1
                };
                assert(less[a] == x);
                lemma_index_of(less, a);
            }
            assert(note_map(less, texts) =~= note_map(keys, notes).remove(k));
        }
        *self = NoteMap { keys: ks, notes: ns };
        true
    }

    /// Whether there are no notes.
    pub fn is_empty(&self) -> (r: bool)
        ensures
            r == (self@ == Map::<Seq<char>, Seq<char>>::empty()),
    {
        let r = self.keys.len() == 0;
        proof {
            if r {
                assert(self@ =~= Map::<Seq<char>, Seq<char>>::empty());
            } else {
                assert(self.keys.deep_view()[0] == self.keys[0]@);
                assert(self@.dom().contains(self.keys[0]@));
            }
        }
        r
    }

    /// Whether two maps hold the same notes under the same identifiers.
    pub fn same_as(&self, other: &NoteMap) -> (r: bool)
        ensures
            r == (self@ == other@),
    {
        proof {
            use_type_invariant(self);
            use_type_invariant(other);
        }
        self.within(other) && other.within(self) && {
            assert(self@ =~= other@);
            true
        }
    }

    /// Whether every note of this map stands in `other` under the same identifier.
    fn within(&self, other: &NoteMap) -> (r: bool)
        ensures
            r == (forall|k: Seq<char>| #[trigger]
                self@.dom().contains(k) ==> other@.dom().contains(k) && other@[k] == self@[k]),
    {
        proof {
            use_type_invariant(self);
        }
        let mut i: usize = 0;
        while i < self.keys.len()
            invariant
                i <= self.keys.len(),
                self.keys.len() == self.notes.len(),
                ascending(self.keys.deep_view()),
                forall|j: int|
                    0 <= j < i ==> other@.dom().contains(#[trigger] self.keys.deep_view()[j])
                        && other@[self.keys.deep_view()[j]] == self.notes.deep_view()[j],
            decreases self.keys.len() - i,
        {
            let ghost k = self.keys.deep_view()[i as int];
            proof {
                lemma_index_of(self.keys.deep_view(), i as int);
                assert(self@.dom().contains(k) && self@[k] == self.notes.deep_view()[i as int]);
            }
            match other.get(self.keys[i].as_str()) {
                Some(note) => {
                    if !same(note, self.notes[i].as_str()) {
                        return false;
                    }
                },
                None => {
                    return false;
                },
            }
            i += 1;
        }
        proof {
            assert forall|k: Seq<char>| #[trigger] self@.dom().contains(k) implies other@.dom().contains(
            k) && other@[k] == self@[k] by {
                let j = self.keys.deep_view().index_of(k);
                assert(self.keys.deep_view()[j] == k);
            }
        }
        true
    }

    /// The identifiers that have notes, in ascending order.
    pub fn keys(&self) -> (r: Vec<String>)
        ensures
            ascending(r.deep_view()),
            forall|x: Seq<char>| r.deep_view().contains(x) <==> self@.dom().contains(x),
    {
        proof {
            use_type_invariant(self);
        }
        crate::text::copied(&self.keys)
    }
}

impl Clone for NoteMap {
    fn clone(&self) -> (r: NoteMap)
        ensures
            r@ == self@,
    {
        proof {
            use_type_invariant(self);
        }
        let keys = crate::text::copied(&self.keys);
        let notes = crate::text::copied(&self.notes);
        assert(keys.deep_view() =~= self.keys.deep_view());
        assert(notes.deep_view() =~= self.notes.deep_view());
        let r = NoteMap { keys, notes };
        r
    }
}

impl Default for NoteMap {
    fn default() -> (r: NoteMap)
        ensures
            r@ == Map::<Seq<char>, Seq<char>>::empty(),
    {
        NoteMap::new()
    }
}

/// Texts stand in the order of their first characters that differ; of two where one
/// goes on from the other, the shorter comes first.
pub proof fn law_text_order(
    common: Seq<char>,
    x: char,
    y: char,
    a: Seq<char>,
    b: Seq<char>,
)
    requires
        x < y,
    ensures
        text_before(common + seq![x] + a, common + seq![y] + b),
        !text_before(common + seq![y] + b, common + seq![x] + a),
        text_before(common, common + seq![y] + b),
        !text_before(common + seq![y] + b, common),
    decreases common.len(),
{
    let (s, t) = (common + seq![x] + a, common + seq![y] + b);
    if common.len() > 0 {
        let rest = common.skip(1);
        law_text_order(rest, x, y, a, b);
        assert(s.skip(1) =~= rest + seq![x] + a);
        assert(t.skip(1) =~= rest + seq![y] + b);
        assert(s[0] == common[0] && t[0] == common[0]);
    } else {
        assert(s[0] == x && t[0] == y);
    }
}

} // verus!
