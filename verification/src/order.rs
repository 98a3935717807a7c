//! Texts in order, and lists put in the order of a text that goes with each of their items.
use vstd::prelude::*;

verus! {

/// Whether a text comes before another or is the same: characters count by their code points, the
/// first difference decides, and a text comes before all that begin with it.
pub open spec fn text_before(a: Seq<char>, b: Seq<char>) -> bool
    decreases a.len(),
{
    if a.len() == 0 {
        true
    } else if b.len() == 0 {
        false
    } else if a[0] != b[0] {
        (a[0] as int) < (b[0] as int)
    } else {
        text_before(a.drop_first(), b.drop_first())
    }
}

/// Of two texts one comes before the other.
pub proof fn law_texts_are_comparable(a: Seq<char>, b: Seq<char>)
    ensures
        text_before(a, b) || text_before(b, a),
    decreases a.len(),
{
    if a.len() > 0 && b.len() > 0 && a[0] == b[0] {
        law_texts_are_comparable(a.drop_first(), b.drop_first());
    }
}

/// Only the same text comes both before and after a text.
pub proof fn law_order_tells_texts_apart(a: Seq<char>, b: Seq<char>)
    requires
        text_before(a, b),
        text_before(b, a),
    ensures
        a == b,
    decreases a.len(),
{
    if a.len() > 0 && b.len() > 0 {
        let x = a.drop_first();
        let y = b.drop_first();
        assert(a[0] == b[0]);
        law_order_tells_texts_apart(x, y);
        assert(x.len() == a.len() - 1 && y.len() == b.len() - 1);
        assert forall|i: int| 0 <= i < a.len() implies a[i] == b[i] by {
            if i > 0 {
                assert(a[i] == x[i - 1]);
                assert(b[i] == y[i - 1]);
            }
        }
        assert(a =~= b);
    } else {
        assert(a =~= b);
    }
}

/// What comes before a text comes before all that the text comes before.
pub proof fn law_order_is_transitive(a: Seq<char>, b: Seq<char>, c: Seq<char>)
    requires
        text_before(a, b),
        text_before(b, c),
    ensures
        text_before(a, c),
    decreases a.len(),
{
    if a.len() > 0 && b.len() > 0 && c.len() > 0 && a[0] == b[0] && b[0] == c[0] {
        law_order_is_transitive(a.drop_first(), b.drop_first(), c.drop_first());
    }
}

fn chars_of(s: &str) -> (r: Vec<char>)
    ensures
        r@ == s@,
{
    let mut r: Vec<char> = Vec::new();
    for c in it: s.chars()
        invariant
            it.seq() == s@,
            r@ == s@.take(it.index()),
    {
        r.push(c);
        assert(s@.take(it.index() + 1) =~= s@.take(it.index()).push(c));
    }
    assert(s@.take(s@.len() as int) =~= s@);
    r
}

/// Whether a text comes before another or is the same.
pub fn comes_before(a: &str, b: &str) -> (r: bool)
    ensures
        r == text_before(a@, b@),
{
    let x = chars_of(a);
    let y = chars_of(b);
    let mut i: usize = 0;
    assert(x@.skip(0) =~= x@);
    assert(y@.skip(0) =~= y@);
    while i < x.len() && i < y.len() && x[i] == y[i]
        invariant
            i <= x@.len(),
            i <= y@.len(),
            x@ == a@,
            y@ == b@,
            text_before(x@.skip(i as int), y@.skip(i as int)) == text_before(a@, b@),
        decreases x.len() - i,
    {
        assert(x@.skip(i as int).drop_first() =~= x@.skip(i + 1));
        assert(y@.skip(i as int).drop_first() =~= y@.skip(i + 1));
        i += 1;
    }
    if i == x.len() {
        true
    } else if i == y.len() {
        false
    } else {
        x[i] < y[i]
    }
}

/// Whether a list is in the order of the texts that go with its items.
pub open spec fn in_order<T>(list: Seq<T>, key: spec_fn(T) -> Seq<char>) -> bool {
    forall|i: int, j: int|
        0 <= i < j < list.len() ==> text_before(key(#[trigger] list[i]), key(#[trigger] list[j]))
}

/// The items of a list that one text goes with.
pub open spec fn items_with<T>(list: Seq<T>, key: spec_fn(T) -> Seq<char>, k: Seq<char>) -> Seq<T> {
    list.filter(|item: T| key(item) == k)
}

/// Whether a list has been put in order: it has the same items, they are in the order of the texts
/// that go with them, and those with the same text stand as they stood.
pub open spec fn put_in_order<T>(
    list: Seq<T>,
    sorted: Seq<T>,
    key: spec_fn(T) -> Seq<char>,
) -> bool {
    &&& sorted.to_multiset() == list.to_multiset()
    &&& in_order(sorted, key)
    &&& forall|k: Seq<char>| #[trigger] items_with(sorted, key, k) == items_with(list, key, k)
}

proof fn lemma_one_item<T>(item: T, key: spec_fn(T) -> Seq<char>, k: Seq<char>)
    ensures
        items_with(seq![item], key, k) == (if key(item) == k {
            seq![item]
        } else {
            Seq::empty()
        }),
{
    reveal_with_fuel(Seq::filter, 2);
    let one = seq![item];
    assert(one.drop_last() =~= Seq::<T>::empty());
    assert(one.last() == item);
    assert(items_with(one, key, k) =~= (if key(item) == k {
        seq![item]
    } else {
        Seq::empty()
    }));
}

proof fn lemma_no_items<T>(list: Seq<T>, key: spec_fn(T) -> Seq<char>, k: Seq<char>)
    requires
        forall|i: int| 0 <= i < list.len() ==> key(#[trigger] list[i]) != k,
    ensures
        items_with(list, key, k) == Seq::<T>::empty(),
    decreases list.len(),
{
    reveal(Seq::filter);
    if list.len() > 0 {
        assert forall|i: int| 0 <= i < list.drop_last().len() implies key(
            #[trigger] list.drop_last()[i],
        ) != k by {
            assert(list.drop_last()[i] == list[i]);
        }
        lemma_no_items(list.drop_last(), key, k);
        assert(key(list[list.len() - 1]) != k);
    }
}

proof fn lemma_items_of_both<T>(a: Seq<T>, b: Seq<T>, key: spec_fn(T) -> Seq<char>, k: Seq<char>)
    ensures
        items_with(a + b, key, k) == items_with(a, key, k) + items_with(b, key, k),
{
    Seq::filter_distributes_over_add(a, b, |item: T| key(item) == k);
}

/// An item put into an ordered list behind all that come before it or tie with it leaves the list
/// ordered, and ties as they stood.
proof fn lemma_put_in<T>(
    list: Seq<T>,
    sorted: Seq<T>,
    item: T,
    at: int,
    key: spec_fn(T) -> Seq<char>,
)
    requires
        put_in_order(list, sorted, key),
        0 <= at <= sorted.len(),
        forall|i: int| 0 <= i < at ==> text_before(key(#[trigger] sorted[i]), key(item)),
        forall|i: int| at <= i < sorted.len() ==> !text_before(key(#[trigger] sorted[i]), key(item)),
    ensures
        put_in_order(list.push(item), sorted.insert(at, item), key),
{
    let next = sorted.insert(at, item);
    let head = sorted.take(at);
    let tail = sorted.skip(at);
    assert(sorted =~= head + tail);
    assert(next =~= head + seq![item] + tail);
    assert(list.push(item) =~= list + seq![item]);
    assert(next.to_multiset() == list.push(item).to_multiset()) by {
        vstd::seq_lib::to_multiset_insert(sorted, at, item);
        vstd::seq_lib::to_multiset_build(list, item);
    }
    assert forall|i: int, j: int| 0 <= i < j < next.len() implies text_before(
        key(#[trigger] next[i]),
        key(#[trigger] next[j]),
    ) by {
        let oi = if i < at { i } else { i - 1 };
        let oj = if j < at { j } else { j - 1 };
        if i == at {
            assert(next[j] == sorted[oj]);
            law_texts_are_comparable(key(sorted[oj]), key(item));
        } else if j == at {
            assert(next[i] == sorted[oi]);
        } else {
            assert(next[i] == sorted[oi]);
            assert(next[j] == sorted[oj]);
        }
    }
    assert forall|k: Seq<char>| #[trigger]
        items_with(next, key, k) == items_with(list.push(item), key, k) by {
        lemma_items_of_both(head + seq![item], tail, key, k);
        lemma_items_of_both(head, seq![item], key, k);
        lemma_items_of_both(head, tail, key, k);
        lemma_items_of_both(list, seq![item], key, k);
        lemma_one_item(item, key, k);
        if key(item) == k {
            assert forall|i: int| 0 <= i < tail.len() implies key(#[trigger] tail[i]) != k by {
                assert(tail[i] == sorted[at + i]);
                law_texts_are_comparable(key(item), key(item));
            }
            lemma_no_items(tail, key, k);
            assert(items_with(next, key, k) =~= items_with(list.push(item), key, k));
        } else {
            assert(items_with(next, key, k) =~= items_with(list.push(item), key, k));
        }
    }
}

/// Puts a list in the order of the texts that go with its items; items with the same text stay in
/// the order that they came in.
pub fn sort_by_text<T>(list: Vec<(String, T)>) -> (sorted: Vec<(String, T)>)
    ensures
        put_in_order(list@, sorted@, |item: (String, T)| item.0@),
{
    let ghost key = |item: (String, T)| item.0@;
    let ghost all = list@;
    let mut list = list;
    let mut sorted: Vec<(String, T)> = Vec::new();
    let ghost mut done: int = 0;
    proof {
        assert(all.take(0) =~= Seq::<(String, T)>::empty());
        assert(sorted@ =~= all.take(0));
        assert(all.skip(0) =~= all);
    }
    while list.len() > 0
        invariant
            0 <= done <= all.len(),
            list@ == all.skip(done),
            key == (|item: (String, T)| item.0@),
            put_in_order(all.take(done), sorted@, key),
        decreases list.len(),
    {
        let item = list.remove(0);
        let mut at: usize = 0;
        let mut end: usize = sorted.len();
        while at < end
            invariant
                at <= end <= sorted@.len(),
                key == (|item: (String, T)| item.0@),
                in_order(sorted@, key),
                forall|i: int| 0 <= i < at ==> text_before(key(#[trigger] sorted@[i]), key(item)),
                forall|i: int|
                    end <= i < sorted@.len() ==> !text_before(key(#[trigger] sorted@[i]), key(item)),
            decreases end - at,
        {
            let middle: usize = at + (end - at) / 2;
            let ghost pivot = key(sorted@[middle as int]);
            if comes_before(sorted[middle].0.as_str(), item.0.as_str()) {
                assert forall|i: int| 0 <= i <= middle implies text_before(
                    key(#[trigger] sorted@[i]),
                    key(item),
                ) by {
                    if i < middle {
                        law_order_is_transitive(key(sorted@[i]), pivot, key(item));
                    }
                }
                at = middle + 1;
            } else {
                assert forall|i: int| middle <= i < sorted@.len() implies !text_before(
                    key(#[trigger] sorted@[i]),
                    key(item),
                ) by {
                    if middle < i && text_before(key(sorted@[i]), key(item)) {
                        law_order_is_transitive(pivot, key(sorted@[i]), key(item));
                    }
                }
                end = middle;
            }
        }
        proof {
            lemma_put_in(all.take(done), sorted@, item, at as int, key);
            assert(all.take(done + 1) =~= all.take(done).push(item));
            assert(all.skip(done + 1) =~= all.skip(done).remove(0));
        }
        sorted.insert(at, item);
        proof {
            done = done + 1;
        }
    }
    assert(all.take(done) =~= all);
    sorted
}

proof fn lemma_first_item<T>(list: Seq<T>, key: spec_fn(T) -> Seq<char>, k: Seq<char>)
    requires
        list.len() > 0,
    ensures
        items_with(list, key, k) == (if key(list[0]) == k {
            seq![list[0]]
        } else {
            Seq::empty()
        }) + items_with(list.drop_first(), key, k),
{
    assert(list =~= seq![list[0]] + list.drop_first());
    lemma_items_of_both(seq![list[0]], list.drop_first(), key, k);
    lemma_one_item(list[0], key, k);
}

/// Where a list has the first item of an ordered list, its own first item does not come later.
proof fn lemma_first_comes_first<T>(a: Seq<T>, b: Seq<T>, key: spec_fn(T) -> Seq<char>)
    requires
        a.len() > 0,
        in_order(b, key),
        items_with(a, key, key(a[0])) == items_with(b, key, key(a[0])),
    ensures
        b.len() > 0,
        text_before(key(b[0]), key(a[0])),
{
    let k = key(a[0]);
    lemma_first_item(a, key, k);
    if forall|i: int| 0 <= i < b.len() ==> key(#[trigger] b[i]) != k {
        lemma_no_items(b, key, k);
    }
    let j = choose|j: int| 0 <= j < b.len() && key(#[trigger] b[j]) == k;
    if j == 0 {
        law_texts_are_comparable(k, k);
    } else {
        assert(text_before(key(b[0]), key(b[j])));
    }
}

proof fn lemma_one_order<T>(a: Seq<T>, b: Seq<T>, key: spec_fn(T) -> Seq<char>)
    requires
        in_order(a, key),
        in_order(b, key),
        forall|k: Seq<char>| #[trigger] items_with(a, key, k) == items_with(b, key, k),
    ensures
        a == b,
    decreases a.len(),
{
    if a.len() > 0 {
        lemma_first_comes_first(a, b, key);
        lemma_first_comes_first(b, a, key);
        law_order_tells_texts_apart(key(a[0]), key(b[0]));
        let first = key(a[0]);
        lemma_first_item(a, key, first);
        lemma_first_item(b, key, first);
        assert(items_with(a, key, first)[0] == a[0]);
        assert(items_with(b, key, first)[0] == b[0]);
        let rest_a = a.drop_first();
        let rest_b = b.drop_first();
        assert forall|k: Seq<char>| #[trigger]
            items_with(rest_a, key, k) == items_with(rest_b, key, k) by {
            lemma_first_item(a, key, k);
            lemma_first_item(b, key, k);
            let n: int = if first == k {
                1
            } else {
                0
            };
            assert(items_with(a, key, k) == items_with(b, key, k));
            assert(items_with(a, key, k).skip(n) =~= items_with(rest_a, key, k));
            assert(items_with(b, key, k).skip(n) =~= items_with(rest_b, key, k));
        }
        lemma_one_order(rest_a, rest_b, key);
        assert(a =~= seq![a[0]] + rest_a);
        assert(b =~= seq![b[0]] + rest_b);
    } else if b.len() > 0 {
        lemma_first_comes_first(b, a, key);
    }
    assert(a =~= b);
}

/// There is one way to put a list in order.
pub proof fn law_there_is_one_order<T>(
    list: Seq<T>,
    a: Seq<T>,
    b: Seq<T>,
    key: spec_fn(T) -> Seq<char>,
)
    requires
        put_in_order(list, a, key),
        put_in_order(list, b, key),
    ensures
        a == b,
{
    assert forall|k: Seq<char>| #[trigger] items_with(a, key, k) == items_with(b, key, k) by {
        assert(items_with(a, key, k) == items_with(list, key, k));
    }
    lemma_one_order(a, b, key);
}

/// What goes with the items goes with the items in any other order.
proof fn lemma_mapped_multiset<T, U>(a: Seq<T>, b: Seq<T>, f: spec_fn(T) -> U)
    requires
        a.to_multiset() == b.to_multiset(),
    ensures
        a.map_values(f).to_multiset() == b.map_values(f).to_multiset(),
    decreases a.len(),
{
    vstd::seq_lib::to_multiset_len(a);
    vstd::seq_lib::to_multiset_len(b);
    if a.len() == 0 {
        assert(a.map_values(f) =~= b.map_values(f));
    } else {
        let x = a.last();
        let rest = a.drop_last();
        assert(a =~= rest.push(x));
        vstd::seq_lib::to_multiset_contains(a, x);
        vstd::seq_lib::to_multiset_contains(b, x);
        assert(a.contains(x)) by {
            assert(a[a.len() - 1] == x);
        }
        let j = b.index_of(x);
        vstd::seq_lib::to_multiset_remove(a, a.len() - 1);
        vstd::seq_lib::to_multiset_remove(b, j);
        assert(a.remove(a.len() - 1) =~= rest);
        lemma_mapped_multiset(rest, b.remove(j), f);
        assert(a.map_values(f) =~= rest.map_values(f).push(f(x)));
        vstd::seq_lib::to_multiset_build(rest.map_values(f), f(x));
        assert(b.map_values(f) =~= b.remove(j).map_values(f).insert(j, f(x)));
        vstd::seq_lib::to_multiset_insert(b.remove(j).map_values(f), j, f(x));
    }
}

proof fn lemma_mapped_items<T, U>(
    list: Seq<T>,
    f: spec_fn(T) -> U,
    key: spec_fn(T) -> Seq<char>,
    mapped_key: spec_fn(U) -> Seq<char>,
    k: Seq<char>,
)
    requires
        forall|i: int| 0 <= i < list.len() ==> key(#[trigger] list[i]) == mapped_key(f(list[i])),
    ensures
        items_with(list.map_values(f), mapped_key, k) == items_with(list, key, k).map_values(f),
    decreases list.len(),
{
    reveal(Seq::filter);
    if list.len() == 0 {
        assert(items_with(list.map_values(f), mapped_key, k) =~= items_with(
            list,
            key,
            k,
        ).map_values(f));
    } else {
        let rest = list.drop_last();
        assert forall|i: int| 0 <= i < rest.len() implies key(#[trigger] rest[i]) == mapped_key(
            f(rest[i]),
        ) by {
            assert(rest[i] == list[i]);
        }
        lemma_mapped_items(rest, f, key, mapped_key, k);
        assert(list.map_values(f).drop_last() =~= rest.map_values(f));
        assert(key(list[list.len() - 1]) == mapped_key(f(list[list.len() - 1])));
        assert(items_with(list.map_values(f), mapped_key, k) =~= items_with(
            list,
            key,
            k,
        ).map_values(f));
    }
}

/// A list that has been put in order by the texts beside its items has been put in order by the
/// same texts without them.
pub(crate) proof fn lemma_order_of_values<T, U>(
    list: Seq<T>,
    sorted: Seq<T>,
    f: spec_fn(T) -> U,
    key: spec_fn(T) -> Seq<char>,
    mapped_key: spec_fn(U) -> Seq<char>,
)
    requires
        put_in_order(list, sorted, key),
        forall|i: int| 0 <= i < list.len() ==> key(#[trigger] list[i]) == mapped_key(f(list[i])),
    ensures
        put_in_order(list.map_values(f), sorted.map_values(f), mapped_key),
{
    assert forall|i: int| 0 <= i < sorted.len() implies key(#[trigger] sorted[i]) == mapped_key(
        f(sorted[i]),
    ) by {
        vstd::seq_lib::to_multiset_contains(sorted, sorted[i]);
        vstd::seq_lib::to_multiset_contains(list, sorted[i]);
        assert(sorted.contains(sorted[i]));
        let j = list.index_of(sorted[i]);
        assert(list[j] == sorted[i]);
    }
    lemma_mapped_multiset(sorted, list, f);
    assert(in_order(sorted.map_values(f), mapped_key));
    assert forall|k: Seq<char>| #[trigger]
        items_with(sorted.map_values(f), mapped_key, k) == items_with(
            list.map_values(f),
            mapped_key,
            k,
        ) by {
        lemma_mapped_items(sorted, f, key, mapped_key, k);
        lemma_mapped_items(list, f, key, mapped_key, k);
    }
}

/// Texts are ordered by their code points: of two texts with a common beginning, the one that goes on
/// with the lower character comes before the other, and not after it, whatever follows.
pub proof fn law_order_goes_by_code_points(
    common: Seq<char>,
    c: char,
    d: char,
    s: Seq<char>,
    t: Seq<char>,
)
    requires
        (c as u32) < (d as u32),
    ensures
        text_before(common.push(c) + s, common.push(d) + t),
        !text_before(common.push(d) + t, common.push(c) + s),
    decreases common.len(),
{
    let a = common.push(c) + s;
    let b = common.push(d) + t;
    crate::encoding::lemma_char_range(c);
    crate::encoding::lemma_char_range(d);
    if common.len() == 0 {
        assert(a[0] == c && b[0] == d);
    } else {
        assert(a[0] == common[0] && b[0] == common[0]);
        assert(a.drop_first() =~= common.drop_first().push(c) + s);
        assert(b.drop_first() =~= common.drop_first().push(d) + t);
        law_order_goes_by_code_points(common.drop_first(), c, d, s, t);
    }
}

/// A text comes before every longer one that begins with it, and not after it.
pub proof fn law_beginnings_come_first(text: Seq<char>, more: Seq<char>)
    ensures
        text_before(text, text + more),
        more.len() > 0 ==> !text_before(text + more, text),
    decreases text.len(),
{
    if text.len() > 0 {
        assert((text + more)[0] == text[0]);
        assert((text + more).drop_first() =~= text.drop_first() + more);
        law_beginnings_come_first(text.drop_first(), more);
    }
}

/// The items that one text goes with are picked one by one, in the order that they stand in.
pub proof fn law_items_are_picked_one_by_one<T>(
    a: Seq<T>,
    b: Seq<T>,
    item: T,
    key: spec_fn(T) -> Seq<char>,
    k: Seq<char>,
)
    ensures
        items_with(a + b, key, k) == items_with(a, key, k) + items_with(b, key, k),
        key(item) == k ==> items_with(seq![item], key, k) == seq![item],
        key(item) != k ==> items_with(seq![item], key, k) == Seq::<T>::empty(),
{
    lemma_items_of_both(a, b, key, k);
    lemma_one_item(item, key, k);
}

/// What it is for a list to be put in order: every item is there as often as before, an item whose
/// text comes first stands first, and items with one text stand as they stood.
pub proof fn law_order_of_a_list<T>(
    list: Seq<T>,
    sorted: Seq<T>,
    key: spec_fn(T) -> Seq<char>,
    i: int,
    j: int,
    k: Seq<char>,
)
    requires
        put_in_order(list, sorted, key),
        0 <= i < sorted.len(),
        0 <= j < sorted.len(),
    ensures
        sorted.len() == list.len(),
        sorted.to_multiset() == list.to_multiset(),
        !text_before(key(sorted[j]), key(sorted[i])) ==> i < j,
        items_with(sorted, key, k) == items_with(list, key, k),
{
    vstd::seq_lib::to_multiset_len(list);
    vstd::seq_lib::to_multiset_len(sorted);
    if i == j {
        law_texts_are_comparable(key(sorted[i]), key(sorted[i]));
    } else if j < i {
        assert(text_before(key(sorted[j]), key(sorted[i])));
    }
}

} // verus!
