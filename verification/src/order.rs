//! Lists sorted without repetition.
use vstd::prelude::*;

use crate::same::Same;
use crate::text::chars_of;

verus! {

/// `a` comes before `b` in the order of texts: by the first character in which
/// they differ, a proper prefix first.
pub open spec fn text_before(a: Seq<char>, b: Seq<char>) -> bool
    decreases a.len(),
{
    if b.len() == 0 {
        false
    } else if a.len() == 0 {
        true
    } else if a[0] != b[0] {
        a[0] < b[0]
    } else {
        text_before(a.drop_first(), b.drop_first())
    }
}

/// Types whose values have a total order.
pub trait Ordered: Same {
    /// `a` comes before `b`.
    spec fn before(a: Self::V, b: Self::V) -> bool;

    /// Whether this value comes before the other.
    fn precedes(&self, other: &Self) -> (r: bool)
        ensures
            r == Self::before(self.deep_view(), other.deep_view()),
    ;

    /// The order is strict and total.
    proof fn order_is_total(a: Self::V, b: Self::V, c: Self::V)
        ensures
            !Self::before(a, a),
            Self::before(a, b) && Self::before(b, c) ==> Self::before(a, c),
            a == b || Self::before(a, b) || Self::before(b, a),
    ;
}

proof fn lemma_text_order(a: Seq<char>, b: Seq<char>, c: Seq<char>)
    ensures
        !text_before(a, a),
        text_before(a, b) && text_before(b, c) ==> text_before(a, c),
        a == b || text_before(a, b) || text_before(b, a),
    decreases a.len(),
{
    if a.len() == 0 && b.len() == 0 {
        assert(a =~= b);
    }
    if a.len() > 0 && b.len() > 0 && c.len() > 0 {
        lemma_text_order(a.drop_first(), b.drop_first(), c.drop_first());
    } else if a.len() > 0 {
        lemma_text_order(a.drop_first(), a.drop_first(), a.drop_first());
        if b.len() > 0 {
            lemma_text_order(a.drop_first(), b.drop_first(), Seq::empty());
        }
    }
    if a.len() > 0 && b.len() > 0 && a[0] == b[0] && a.drop_first() == b.drop_first() {
        assert(a =~= seq![a[0]] + a.drop_first());
        assert(b =~= seq![b[0]] + b.drop_first());
    }
}

/// Whether the text `a[i..]` comes before `b[i..]`.
fn chars_before(a: &Vec<char>, b: &Vec<char>) -> (r: bool)
    ensures
        r == text_before(a@, b@),
{
    let mut i: usize = 0;
    assert(a@.skip(0) =~= a@);
    assert(b@.skip(0) =~= b@);
    while i < a.len() && i < b.len() && a[i] == b[i]
        invariant
            i <= a.len(),
            i <= b.len(),
            text_before(a@, b@) == text_before(a@.skip(i as int), b@.skip(i as int)),
        decreases a.len() - i,
    {
        assert(a@.skip(i as int).drop_first() =~= a@.skip(i + 1));
        assert(b@.skip(i as int).drop_first() =~= b@.skip(i + 1));
        i += 1;
    }
    if i >= b.len() {
        false
    } else if i >= a.len() {
        true
    } else {
        a[i] < b[i]
    }
}

impl Ordered for String {
    open spec fn before(a: Seq<char>, b: Seq<char>) -> bool {
        text_before(a, b)
    }

    fn precedes(&self, other: &Self) -> (r: bool) {
        chars_before(&chars_of(self.as_str()), &chars_of(other.as_str()))
    }

    proof fn order_is_total(a: Seq<char>, b: Seq<char>, c: Seq<char>) {
        lemma_text_order(a, b, c);
    }
}

impl Same for (String, String) {
    fn same(&self, other: &Self) -> (r: bool) {
        self.0.same(&other.0) && self.1.same(&other.1)
    }
}

impl Ordered for (String, String) {
    open spec fn before(a: (Seq<char>, Seq<char>), b: (Seq<char>, Seq<char>)) -> bool {
        text_before(a.0, b.0) || (a.0 == b.0 && text_before(a.1, b.1))
    }

    fn precedes(&self, other: &Self) -> (r: bool) {
        self.0.precedes(&other.0) || (self.0.same(&other.0) && self.1.precedes(&other.1))
    }

    proof fn order_is_total(
        a: (Seq<char>, Seq<char>),
        b: (Seq<char>, Seq<char>),
        c: (Seq<char>, Seq<char>),
    ) {
        lemma_text_order(a.0, b.0, c.0);
        lemma_text_order(a.1, b.1, c.1);
    }
}

/// A sorted list with `item` at its place, unless it is there already.
pub open spec fn with_item<T: Ordered>(list: Seq<T::V>, item: T::V) -> Seq<T::V>
    decreases list.len(),
{
    if list.len() == 0 || T::before(list.last(), item) {
        list.push(item)
    } else if list.last() == item {
        list
    } else {
        with_item::<T>(list.drop_last(), item).push(list.last())
    }
}

/// The items sorted, each once.
pub open spec fn sorted_set<T: Ordered>(items: Seq<T::V>) -> Seq<T::V>
    decreases items.len(),
{
    if items.len() == 0 {
        Seq::empty()
    } else {
        with_item::<T>(sorted_set::<T>(items.drop_last()), items.last())
    }
}

/// Each item comes before the next.
pub open spec fn strictly_sorted<T: Ordered>(list: Seq<T::V>) -> bool {
    forall|i: int, j: int|
        0 <= i < j < list.len() ==> T::before(#[trigger] list[i], #[trigger] list[j])
}

proof fn lemma_with_item<T: Ordered>(list: Seq<T::V>, item: T::V)
    requires
        strictly_sorted::<T>(list),
    ensures
        strictly_sorted::<T>(with_item::<T>(list, item)),
        forall|x: T::V|
            #[trigger] with_item::<T>(list, item).contains(x) <==> list.contains(x) || x == item,
        list.len() <= with_item::<T>(list, item).len(),
    decreases list.len(),
{
    let result = with_item::<T>(list, item);
    if list.len() == 0 || T::before(list.last(), item) {
        assert forall|i: int, j: int| 0 <= i < j < result.len() implies T::before(
            #[trigger] result[i],
            #[trigger] result[j],
        ) by {
            if j == list.len() {
                if i < list.len() - 1 {
                    assert(T::before(list[i], list[list.len() - 1]));
                    T::order_is_total(list[i], list.last(), item);
                }
            } else {
                assert(T::before(list[i], list[j]));
            }
        }
        assert forall|x: T::V| #[trigger] result.contains(x) <==> list.contains(x) || x == item by {
            if list.contains(x) {
                let k = choose|k: int| 0 <= k < list.len() && list[k] == x;
                assert(result[k] == x);
            }
            if x == item {
                assert(result[list.len() as int] == x);
            }
            if result.contains(x) && x != item {
                let k = choose|k: int| 0 <= k < result.len() && result[k] == x;
                assert(list[k] == x);
            }
        }
    } else if list.last() == item {
        assert forall|x: T::V| #[trigger] result.contains(x) <==> list.contains(x) || x == item by {
            assert(list[list.len() - 1] == item);
        }
    } else {
        let head = list.drop_last();
        let last = list.last();
        assert forall|i: int, j: int| 0 <= i < j < head.len() implies T::before(
            #[trigger] head[i],
            #[trigger] head[j],
        ) by {
            assert(T::before(list[i], list[j]));
        }
        lemma_with_item::<T>(head, item);
        let inner = with_item::<T>(head, item);
        T::order_is_total(last, item, item);
        assert(T::before(item, last));
        assert forall|i: int, j: int| 0 <= i < j < result.len() implies T::before(
            #[trigger] result[i],
            #[trigger] result[j],
        ) by {
            if j == inner.len() {
                assert(inner.contains(inner[i]));
                if inner[i] != item {
                    assert(head.contains(inner[i]));
                    let k = choose|k: int| 0 <= k < head.len() && head[k] == inner[i];
                    assert(T::before(list[k], list[list.len() - 1]));
                }
            } else {
                assert(T::before(inner[i], inner[j]));
            }
        }
        assert forall|x: T::V| #[trigger] result.contains(x) <==> list.contains(x) || x == item by {
            if result.contains(x) {
                let k = choose|k: int| 0 <= k < result.len() && result[k] == x;
                if k < inner.len() {
                    assert(inner.contains(x));
                    if x != item {
                        assert(head.contains(x));
                        let m = choose|m: int| 0 <= m < head.len() && head[m] == x;
                        assert(list[m] == x);
                    }
                } else {
                    assert(list[list.len() - 1] == x);
                }
            }
            if list.contains(x) {
                let k = choose|k: int| 0 <= k < list.len() && list[k] == x;
                if k < head.len() {
                    assert(head[k] == x);
                    assert(inner.contains(x));
                    let m = choose|m: int| 0 <= m < inner.len() && inner[m] == x;
                    assert(result[m] == x);
                } else {
                    assert(result[inner.len() as int] == x);
                }
            }
            if x == item {
                assert(inner.contains(x));
                let m = choose|m: int| 0 <= m < inner.len() && inner[m] == x;
                assert(result[m] == x);
            }
        }
    }
}

/// The sorted form of a list is sorted, repeats nothing, and holds exactly the
/// items of the list.
pub proof fn sorted_set_holds_the_items<T: Ordered>(items: Seq<T::V>)
    ensures
        strictly_sorted::<T>(sorted_set::<T>(items)),
        forall|x: T::V| #[trigger] sorted_set::<T>(items).contains(x) <==> items.contains(x),
    decreases items.len(),
{
    if items.len() > 0 {
        let head = items.drop_last();
        sorted_set_holds_the_items::<T>(head);
        lemma_with_item::<T>(sorted_set::<T>(head), items.last());
        assert forall|x: T::V| #[trigger] sorted_set::<T>(items).contains(x) <==> items.contains(
            x,
        ) by {
            if items.contains(x) {
                let k = choose|k: int| 0 <= k < items.len() && items[k] == x;
                if k < head.len() {
                    assert(head[k] == x);
                    assert(sorted_set::<T>(head).contains(x));
                }
            }
            if head.contains(x) {
                let k = choose|k: int| 0 <= k < head.len() && head[k] == x;
                assert(items[k] == x);
            }
            assert(items[items.len() - 1] == items.last());
        }
    }
}

proof fn lemma_with_item_at<T: Ordered>(list: Seq<T::V>, item: T::V, at: int)
    requires
        0 <= at <= list.len(),
        forall|i: int| at <= i < list.len() ==> T::before(item, #[trigger] list[i]),
        at > 0 ==> list[at - 1] == item || T::before(list[at - 1], item),
    ensures
        with_item::<T>(list, item) == if at > 0 && list[at - 1] == item {
            list
        } else {
            list.insert(at, item)
        },
    decreases list.len(),
{
    if at < list.len() {
        let last = list.last();
        assert(T::before(item, list[list.len() - 1]));
        T::order_is_total(item, last, item);
        lemma_with_item_at::<T>(list.drop_last(), item, at);
        if at > 0 && list[at - 1] == item {
            assert(list.drop_last().push(last) =~= list);
        } else {
            assert(list.drop_last().insert(at, item).push(last) =~= list.insert(at, item));
        }
    } else {
        assert(list.insert(at, item) =~= list.push(item));
        if at > 0 && list[at - 1] == item {
            T::order_is_total(item, item, item);
        }
    }
}

/// Put `item` at its place in a sorted list, unless it is there already.
pub fn insert_sorted<T: Ordered>(list: &mut Vec<T>, item: T)
    ensures
        final(list).deep_view() == with_item::<T>(old(list).deep_view(), item.deep_view()),
{
    let ghost views = list.deep_view();
    let mut at: usize = list.len();
    while at > 0 && item.precedes(&list[at - 1])
        invariant
            at <= list.len(),
            views == list.deep_view(),
            forall|i: int|
                at <= i < views.len() ==> T::before(item.deep_view(), #[trigger] views[i]),
        decreases at,
    {
        at -= 1;
    }
    proof {
        if at > 0 {
            assert(views[at - 1] == list@[at - 1].deep_view());
            T::order_is_total(item.deep_view(), views[at - 1], item.deep_view());
        }
        lemma_with_item_at::<T>(views, item.deep_view(), at as int);
    }
    if at > 0 && list[at - 1].same(&item) {
        return;
    }
    list.insert(at, item);
    assert(list.deep_view() =~= views.insert(at as int, item.deep_view()));
}

/// Texts are ordered by the first character in which they differ, and a text comes
/// before what continues it.
pub proof fn texts_are_ordered_by_their_first_difference(
    lead: Seq<char>,
    a: char,
    b: char,
    x: Seq<char>,
    y: Seq<char>,
)
    requires
        a < b,
    ensures
        text_before(lead + seq![a] + x, lead + seq![b] + y),
        !text_before(lead + seq![b] + y, lead + seq![a] + x),
        text_before(lead, lead + seq![a] + x),
        !text_before(lead + seq![a] + x, lead),
    decreases lead.len(),
{
    let first = lead + seq![a] + x;
    let second = lead + seq![b] + y;
    if lead.len() > 0 {
        let rest = lead.drop_first();
        texts_are_ordered_by_their_first_difference(rest, a, b, x, y);
        assert(first.drop_first() =~= rest + seq![a] + x);
        assert(second.drop_first() =~= rest + seq![b] + y);
        assert(first[0] == lead[0] && second[0] == lead[0]);
    } else {
        assert(first[0] == a && second[0] == b);
    }
}

} // verus!
