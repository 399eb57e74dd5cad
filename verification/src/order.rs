//! Ordering: byte-wise lexicographic order of texts, three-part sort keys, and
//! a stable sort of items by their keys.

use vstd::prelude::*;

verus! {

/// Whether `a` comes before `b` or equals it, byte by byte; a text comes
/// before every text that it begins.
pub open spec fn bytes_le(a: Seq<u8>, b: Seq<u8>) -> bool
    decreases a.len(),
{
    if a.len() == 0 {
        true
    } else if b.len() == 0 {
        false
    } else if a[0] == b[0] {
        bytes_le(a.drop_first(), b.drop_first())
    } else {
        a[0] < b[0]
    }
}

/// Whether `a` comes strictly before `b`.
pub open spec fn bytes_lt(a: Seq<u8>, b: Seq<u8>) -> bool {
    bytes_le(a, b) && a != b
}

/// Of two texts, one comes before the other or equals it.
pub proof fn lemma_bytes_le_total(a: Seq<u8>, b: Seq<u8>)
    ensures
        bytes_le(a, b) || bytes_le(b, a),
    decreases a.len(),
{
    if a.len() > 0 && b.len() > 0 && a[0] == b[0] {
        lemma_bytes_le_total(a.drop_first(), b.drop_first());
    }
}

/// Two texts that come before each other are the same text.
pub proof fn lemma_bytes_le_antisymmetric(a: Seq<u8>, b: Seq<u8>)
    requires
        bytes_le(a, b),
        bytes_le(b, a),
    ensures
        a == b,
    decreases a.len(),
{
    if a.len() == 0 || b.len() == 0 {
        assert(a =~= b);
    } else {
        lemma_bytes_le_antisymmetric(a.drop_first(), b.drop_first());
        assert(a =~= seq![a[0]] + a.drop_first());
        assert(b =~= seq![b[0]] + b.drop_first());
    }
}

/// The order of texts is transitive.
pub proof fn lemma_bytes_le_transitive(a: Seq<u8>, b: Seq<u8>, c: Seq<u8>)
    requires
        bytes_le(a, b),
        bytes_le(b, c),
    ensures
        bytes_le(a, c),
    decreases a.len(),
{
    if a.len() > 0 && b.len() > 0 && c.len() > 0 && a[0] == b[0] && b[0] == c[0] {
        lemma_bytes_le_transitive(a.drop_first(), b.drop_first(), c.drop_first());
    }
}

/// Every text comes before or equals itself.
pub proof fn lemma_bytes_le_reflexive(a: Seq<u8>)
    ensures
        bytes_le(a, a),
    decreases a.len(),
{
    if a.len() > 0 {
        lemma_bytes_le_reflexive(a.drop_first());
    }
}

/// How one value stands to another.
#[derive(Clone, Copy, PartialEq, Eq, Structural)]
pub enum Rank {
    Before,
    Same,
    After,
}

/// Compares two texts byte by byte.
pub fn compare_bytes(a: &Vec<u8>, b: &Vec<u8>) -> (r: Rank)
    ensures
        r == Rank::Before <==> bytes_lt(a@, b@),
        r == Rank::Same <==> a@ == b@,
        r == Rank::After <==> bytes_lt(b@, a@),
{
    let mut i: usize = 0;
    assert(a@.skip(0) =~= a@ && b@.skip(0) =~= b@);
    while i < a.len() && i < b.len() && a[i] == b[i]
        invariant
            i <= a.len(),
            i <= b.len(),
            a@.take(i as int) == b@.take(i as int),
            bytes_le(a@, b@) == bytes_le(a@.skip(i as int), b@.skip(i as int)),
            bytes_le(b@, a@) == bytes_le(b@.skip(i as int), a@.skip(i as int)),
        decreases a.len() - i,
    {
        proof {
            assert(a@.skip(i as int).drop_first() =~= a@.skip(i + 1));
            assert(b@.skip(i as int).drop_first() =~= b@.skip(i + 1));
            assert(a@.take(i + 1) =~= a@.take(i as int).push(a@[i as int]));
            assert(b@.take(i + 1) =~= b@.take(i as int).push(b@[i as int]));
        }
        i += 1;
    }
    proof {
        lemma_bytes_le_total(a@, b@);
        if bytes_le(a@, b@) && bytes_le(b@, a@) {
            lemma_bytes_le_antisymmetric(a@, b@);
        }
        lemma_bytes_le_reflexive(a@);
    }
    if i == a.len() && i == b.len() {
        assert(a@ =~= a@.take(i as int) && b@ =~= b@.take(i as int));
        Rank::Same
    } else if i == a.len() {
        assert(a@ != b@);
        Rank::Before
    } else if i == b.len() {
        assert(a@ != b@);
        Rank::After
    } else if a[i] < b[i] {
        assert(a@[i as int] != b@[i as int]);
        Rank::Before
    } else {
        assert(a@[i as int] != b@[i as int]);
        Rank::After
    }
}

/// A sort key of three parts, compared in this order: a group, a text, a number.
pub struct SortKey {
    pub group: u8,
    pub text: Vec<u8>,
    pub number: usize,
}

/// The mathematical value of a [`SortKey`].
pub struct SortKeyView {
    pub group: int,
    pub text: Seq<u8>,
    pub number: int,
}

impl View for SortKey {
    type V = SortKeyView;

    open spec fn view(&self) -> SortKeyView {
        SortKeyView { group: self.group as int, text: self.text@, number: self.number as int }
    }
}

/// Whether key `a` comes before key `b` or equals it: by group, then by text,
/// then by number.
pub open spec fn key_le(a: SortKeyView, b: SortKeyView) -> bool {
    a.group < b.group || (a.group == b.group && (bytes_lt(a.text, b.text) || (a.text == b.text
        && a.number <= b.number)))
}

/// Of two keys, one comes before the other or equals it.
pub proof fn lemma_key_le_total(a: SortKeyView, b: SortKeyView)
    ensures
        key_le(a, b) || key_le(b, a),
{
    lemma_bytes_le_total(a.text, b.text);
}

/// The order of keys is transitive.
pub proof fn lemma_key_le_transitive(a: SortKeyView, b: SortKeyView, c: SortKeyView)
    requires
        key_le(a, b),
        key_le(b, c),
    ensures
        key_le(a, c),
{
    if a.group == b.group && b.group == c.group {
        if bytes_le(a.text, b.text) && bytes_le(b.text, c.text) {
            lemma_bytes_le_transitive(a.text, b.text, c.text);
            if a.text == c.text {
                lemma_bytes_le_antisymmetric(a.text, b.text);
            }
        }
    }
}

/// Whether key `a` comes before key `b` or equals it.
pub fn key_precedes(a: &SortKey, b: &SortKey) -> (r: bool)
    ensures
        r == key_le(a@, b@),
{
    if a.group != b.group {
        return a.group < b.group;
    }
    match compare_bytes(&a.text, &b.text) {
        Rank::Before => true,
        Rank::Same => a.number <= b.number,
        Rank::After => {
            proof {
                if bytes_le(a.text@, b.text@) {
                    lemma_bytes_le_antisymmetric(a.text@, b.text@);
                }
            }
            false
        },
    }
}

/// The views of a list of keys.
pub open spec fn keys_view(keys: Seq<SortKey>) -> Seq<SortKeyView> {
    Seq::new(keys.len(), |i: int| keys[i]@)
}

/// Whether a list of keys is in ascending order.
pub open spec fn is_sorted(keys: Seq<SortKeyView>) -> bool {
    forall|i: int, j: int| 0 <= i < j < keys.len() ==> key_le(keys[i], keys[j])
}

/// Turns a list around.
pub fn reversed<T>(items: Vec<T>) -> (out: Vec<T>)
    ensures
        out@ == items@.reverse(),
{
    let mut rest = items;
    let mut out: Vec<T> = Vec::new();
    let ghost whole = rest@;
    while rest.len() > 0
        invariant
            rest@ == whole.take(rest@.len() as int),
            out@.len() + rest@.len() == whole.len(),
            forall|j: int| 0 <= j < out@.len() ==> out@[j] == whole[whole.len() - 1 - j],
        decreases rest.len(),
    {
        let ghost before = rest@;
        let x = rest.pop().unwrap();
        out.push(x);
        assert(rest@ =~= whole.take(rest@.len() as int));
    }
    assert(out@ =~= whole.reverse());
    out
}

/// Whether `out` is `input` sorted by key, with items of equal key in the
/// order in which they stand in `input`; `origin[i]` is the place in `input`
/// from which `out[i]` was taken, and no place is taken from twice.
pub open spec fn is_stable_sort<T>(
    out: Seq<T>,
    input: Seq<T>,
    key_of: spec_fn(T) -> SortKeyView,
    origin: Seq<int>,
) -> bool {
    &&& out.len() == input.len()
    &&& origin.len() == input.len()
    &&& forall|i: int|
        0 <= i < out.len() ==> 0 <= #[trigger] origin[i] < input.len() && out[i]
            == input[origin[i]]
    &&& forall|i: int, j: int|
        0 <= i < j < out.len() ==> #[trigger] origin[i] != #[trigger] origin[j] && key_le(
            key_of(out[i]),
            key_of(out[j]),
        ) && (key_le(key_of(out[j]), key_of(out[i])) ==> origin[i] < origin[j])
}

/// Sorts items by their keys, which are handed over beside them. Items with
/// equal keys keep the order in which they came. `key_of` says which key
/// belongs to which item; the third part of the result says where each item
/// came from.
pub(crate) fn sort_by_keys<T>(
    items: Vec<T>,
    keys: Vec<SortKey>,
    Ghost(key_of): Ghost<spec_fn(T) -> SortKeyView>,
) -> (out: (Vec<T>, Vec<SortKey>, Ghost<Seq<int>>))
    requires
        items@.len() == keys@.len(),
        forall|i: int| 0 <= i < items@.len() ==> (#[trigger] keys@[i])@ == key_of(items@[i]),
    ensures
        out.0@.len() == items@.len(),
        out.1@.len() == items@.len(),
        out.0@.to_multiset() == items@.to_multiset(),
        forall|i: int| 0 <= i < out.0@.len() ==> (#[trigger] out.1@[i])@ == key_of(out.0@[i]),
        is_sorted(keys_view(out.1@)),
        is_stable_sort(out.0@, items@, key_of, out.2@),
{
    let ghost all_items = items@;
    let ghost all_keys = keys@;
    let mut rest_items = reversed(items);
    let mut rest_keys = reversed(keys);
    let mut out_items: Vec<T> = Vec::new();
    let mut out_keys: Vec<SortKey> = Vec::new();
    let ghost mut done: int = 0;
    let ghost mut origin: Seq<int> = Seq::empty();
    assert(all_items.take(0) =~= Seq::<T>::empty());
    while rest_items.len() > 0
        invariant
            0 <= done <= all_items.len(),
            all_items.len() == all_keys.len(),
            rest_items@.len() == all_items.len() - done,
            rest_keys@.len() == rest_items@.len(),
            rest_items@ == all_items.reverse().take(rest_items@.len() as int),
            rest_keys@ == all_keys.reverse().take(rest_items@.len() as int),
            forall|i: int| 0 <= i < all_items.len() ==> (#[trigger] all_keys[i])@ == key_of(all_items[i]),
            out_items@.len() == done,
            out_keys@.len() == done,
            out_items@.to_multiset() == all_items.take(done).to_multiset(),
            forall|i: int| 0 <= i < done ==> (#[trigger] out_keys@[i])@ == key_of(out_items@[i]),
            is_sorted(keys_view(out_keys@)),
            origin.len() == done,
            forall|i: int|
                0 <= i < done ==> 0 <= #[trigger] origin[i] < done && out_items@[i]
                    == all_items[origin[i]],
            forall|i: int, j: int|
                0 <= i < j < done ==> #[trigger] origin[i] != #[trigger] origin[j] && (key_le(
                    (out_keys@[j])@,
                    (out_keys@[i])@,
                ) ==> origin[i] < origin[j]),
        decreases rest_items.len(),
    {
        let item = rest_items.pop().unwrap();
        let key = rest_keys.pop().unwrap();
        assert(item == all_items[done]);
        assert(key == all_keys[done]);
        assert(rest_items@ =~= all_items.reverse().take(rest_items@.len() as int));
        assert(rest_keys@ =~= all_keys.reverse().take(rest_items@.len() as int));
        let mut p: usize = out_keys.len();
        while p > 0 && !key_precedes(&out_keys[p - 1], &key)
            invariant
                p <= out_keys@.len(),
                forall|j: int| p <= j < out_keys@.len() ==> !key_le((#[trigger] out_keys@[j])@, key@),
            decreases p,
        {
            p -= 1;
        }
        let ghost old_items = out_items@;
        let ghost old_keys = out_keys@;
        let ghost old_origin = origin;
        out_items.insert(p, item);
        out_keys.insert(p, key);
        proof {
            origin = old_origin.insert(p as int, done);
            assert forall|i: int| 0 <= i < done + 1 implies 0 <= #[trigger] origin[i] < done + 1
                && out_items@[i] == all_items[origin[i]] by {
                if i < p {
                    assert(origin[i] == old_origin[i] && out_items@[i] == old_items[i]);
                } else if i > p {
                    assert(origin[i] == old_origin[i - 1] && out_items@[i] == old_items[i - 1]);
                }
            }
            assert forall|i: int, j: int| 0 <= i < j < done + 1 implies #[trigger] origin[i]
                != #[trigger] origin[j] && (key_le((out_keys@[j])@, (out_keys@[i])@) ==> origin[i]
                < origin[j]) by {
                if j < p {
                    assert(origin[i] == old_origin[i] && origin[j] == old_origin[j]);
                    assert(out_keys@[i] == old_keys[i] && out_keys@[j] == old_keys[j]);
                } else if j == p {
                    assert(origin[i] == old_origin[i]);
                } else if i == p {
                    assert(origin[j] == old_origin[j - 1]);
                    assert(out_keys@[j] == old_keys[j - 1]);
                    assert(!key_le((old_keys[j - 1])@, key@));
                } else if i < p {
                    assert(origin[i] == old_origin[i] && origin[j] == old_origin[j - 1]);
                    assert(out_keys@[i] == old_keys[i] && out_keys@[j] == old_keys[j - 1]);
                } else {
                    assert(origin[i] == old_origin[i - 1] && origin[j] == old_origin[j - 1]);
                    assert(out_keys@[i] == old_keys[i - 1] && out_keys@[j] == old_keys[j - 1]);
                }
            }
            let new_keys = keys_view(out_keys@);
            let prev = keys_view(old_keys);
            assert forall|i: int, j: int| 0 <= i < j < new_keys.len() implies key_le(
                new_keys[i],
                new_keys[j],
            ) by {
                if j < p {
                    assert(new_keys[i] == prev[i] && new_keys[j] == prev[j]);
                } else if j == p {
                    assert(new_keys[i] == prev[i]);
                    assert(key_le(prev[p - 1], key@));
                    if i < p - 1 {
                        assert(key_le(prev[i], prev[p - 1]));
                        lemma_key_le_transitive(prev[i], prev[p - 1], key@);
                    }
                } else if i == p {
                    assert(new_keys[j] == prev[j - 1]);
                    assert(!key_le(old_keys[j - 1]@, key@));
                    lemma_key_le_total(key@, prev[j - 1]);
                } else if i < p {
                    assert(new_keys[i] == prev[i] && new_keys[j] == prev[j - 1]);
                } else {
                    assert(new_keys[i] == prev[i - 1] && new_keys[j] == prev[j - 1]);
                }
            }
            assert(all_items.take(done + 1) =~= all_items.take(done).push(item));
            vstd::seq_lib::to_multiset_build(all_items.take(done), item);
            vstd::seq_lib::to_multiset_insert(old_items, p as int, item);
            assert(out_items@ == old_items.insert(p as int, item));
            assert forall|i: int| 0 <= i < done + 1 implies (#[trigger] out_keys@[i])@ == key_of(
                out_items@[i],
            ) by {
                if i < p {
                    assert(out_keys@[i] == old_keys[i] && out_items@[i] == old_items[i]);
                } else if i > p {
                    assert(out_keys@[i] == old_keys[i - 1] && out_items@[i] == old_items[i - 1]);
                }
            }
            done = done + 1;
        }
    }
    assert(all_items.take(done) =~= all_items);
    proof {
        assert forall|i: int, j: int| 0 <= i < j < out_items@.len() implies key_le(
            key_of(out_items@[i]),
            key_of(out_items@[j]),
        ) && (key_le(key_of(out_items@[j]), key_of(out_items@[i])) ==> origin[i] < origin[j]) by {
            let ks = keys_view(out_keys@);
            assert(ks[i] == out_keys@[i]@ && ks[j] == out_keys@[j]@);
        }
    }
    (out_items, out_keys, Ghost(origin))
}

/// Two lists that hold the same items, each as often, still do so after the
/// same function has been applied to every item.
pub proof fn lemma_map_keeps_permutation<A, B>(a: Seq<A>, b: Seq<A>, f: spec_fn(A) -> B)
    requires
        a.to_multiset() == b.to_multiset(),
    ensures
        a.map_values(f).to_multiset() == b.map_values(f).to_multiset(),
    decreases a.len(),
{
    a.to_multiset_ensures();
    b.to_multiset_ensures();
    if a.len() == 0 {
        assert(b.len() == 0);
        assert(a.map_values(f) =~= b.map_values(f));
    } else {
        let x = a.last();
        assert(a[a.len() - 1] == x);
        assert(a.contains(x));
        vstd::seq_lib::to_multiset_contains(a, x);
        vstd::seq_lib::to_multiset_contains(b, x);
        assert(b.contains(x));
        let j = choose|j: int| 0 <= j < b.len() && b[j] == x;
        let a1 = a.drop_last();
        let b1 = b.remove(j);
        assert(a1.push(x) =~= a);
        vstd::seq_lib::to_multiset_build(a1, x);
        vstd::seq_lib::to_multiset_remove(b, j);
        assert(a1.to_multiset() =~= b1.to_multiset());
        lemma_map_keeps_permutation(a1, b1, f);
        assert(a.map_values(f) =~= a1.map_values(f).push(f(x)));
        assert(b.map_values(f) =~= b1.map_values(f).insert(j, f(x)));
        vstd::seq_lib::to_multiset_build(a1.map_values(f), f(x));
        vstd::seq_lib::to_multiset_insert(b1.map_values(f), j, f(x));
    }
}

} // verus!
