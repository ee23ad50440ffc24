//! Putting rows in order: rows between which an order makes no difference stay
//! in the order in which they came.
use crate::records::views;
use vstd::prelude::*;

verus! {

/// An order of rows.
pub trait Order<T: View> {
    /// `a` may stand before `b`.
    spec fn before(a: T::V, b: T::V) -> bool;

    /// Whether `a` may stand before `b`.
    fn stands_before(a: &T, b: &T) -> (yes: bool)
        ensures
            yes == Self::before(a@, b@),
    ;
}

/// The rows `sorted` and `row`, which stands behind the last of them that may
/// stand before it.
pub open spec fn placed<T: View, O: Order<T>>(sorted: Seq<T::V>, row: T::V) -> Seq<T::V>
    decreases sorted.len(),
{
    if sorted.len() == 0 || O::before(sorted.last(), row) {
        sorted.push(row)
    } else {
        placed::<T, O>(sorted.drop_last(), row).push(sorted.last())
    }
}

/// The rows in order, each placed in turn.
pub open spec fn arranged<T: View, O: Order<T>>(rows: Seq<T::V>) -> Seq<T::V>
    decreases rows.len(),
{
    if rows.len() == 0 {
        Seq::empty()
    } else {
        placed::<T, O>(arranged::<T, O>(rows.drop_last()), rows.last())
    }
}

/// Each row may stand before each row behind it.
pub open spec fn in_order<T: View, O: Order<T>>(rows: Seq<T::V>) -> bool {
    forall|i: int, j: int| 0 <= i < j < rows.len() ==> O::before(rows[i], rows[j])
}

/// Of any two of the rows one may stand before the other, and what may stand
/// before a row may stand before what that row may stand before.
pub open spec fn is_total_among<T: View, O: Order<T>>(rows: Seq<T::V>) -> bool {
    &&& forall|a: T::V, b: T::V|
        rows.contains(a) && rows.contains(b) ==> #[trigger] O::before(a, b) || O::before(b, a)
    &&& forall|a: T::V, b: T::V, c: T::V|
        rows.contains(a) && rows.contains(b) && rows.contains(c) && #[trigger] O::before(a, b)
            && #[trigger] O::before(b, c) ==> O::before(a, c)
}

proof fn lemma_placed<T: View, O: Order<T>>(all: Seq<T::V>, sorted: Seq<T::V>, row: T::V)
    requires
        is_total_among::<T, O>(all),
        all.contains(row),
        forall|i: int| 0 <= i < sorted.len() ==> all.contains(#[trigger] sorted[i]),
        in_order::<T, O>(sorted),
    ensures
        in_order::<T, O>(placed::<T, O>(sorted, row)),
        forall|i: int|
            0 <= i < placed::<T, O>(sorted, row).len() ==> sorted.contains(
                #[trigger] placed::<T, O>(sorted, row)[i],
            ) || placed::<T, O>(sorted, row)[i] == row,
    decreases sorted.len(),
{
    let out = placed::<T, O>(sorted, row);
    if sorted.len() == 0 || O::before(sorted.last(), row) {
        assert forall|i: int, j: int| 0 <= i < j < out.len() implies O::before(out[i], out[j]) by {
            if j == sorted.len() {
                let last = sorted[sorted.len() - 1];
                assert(all.contains(sorted[i]) && all.contains(last));
                if i < sorted.len() - 1 {
                    assert(O::before(sorted[i], last));
                    assert(O::before(last, row));
                }
            }
        }
    } else {
        let front = sorted.drop_last();
        let last = sorted.last();
        assert forall|i: int| 0 <= i < front.len() implies all.contains(#[trigger] front[i]) by {
            assert(front[i] == sorted[i]);
        }
        assert(all.contains(sorted[sorted.len() - 1]));
        lemma_placed::<T, O>(all, front, row);
        let most = placed::<T, O>(front, row);
        assert(O::before(row, last));
        assert forall|i: int, j: int| 0 <= i < j < out.len() implies O::before(out[i], out[j]) by {
            if j == most.len() {
                if front.contains(most[i]) {
                    let k = choose|k: int| 0 <= k < front.len() && front[k] == most[i];
                    assert(O::before(sorted[k], sorted[sorted.len() - 1]));
                }
            }
        }
        assert forall|i: int| 0 <= i < out.len() implies sorted.contains(#[trigger] out[i])
            || out[i] == row by {
            if i == most.len() {
                assert(sorted[sorted.len() - 1] == out[i]);
            } else if front.contains(most[i]) {
                let m = choose|m: int| 0 <= m < front.len() && front[m] == most[i];
                assert(sorted[m] == out[i]);
            }
        }
    }
}

proof fn lemma_placed_rows<T: View, O: Order<T>>(sorted: Seq<T::V>, row: T::V)
    ensures
        placed::<T, O>(sorted, row).to_multiset() == sorted.to_multiset().insert(row),
    decreases sorted.len(),
{
    broadcast use vstd::seq_lib::group_to_multiset_ensures;

    if sorted.len() == 0 || O::before(sorted.last(), row) {
    } else {
        lemma_placed_rows::<T, O>(sorted.drop_last(), row);
        assert(sorted =~= sorted.drop_last().push(sorted.last()));
        assert(sorted.drop_last().to_multiset().insert(row).insert(sorted.last())
            =~= sorted.drop_last().to_multiset().insert(sorted.last()).insert(row));
    }
}

/// Arranging loses no row and adds none.
pub proof fn arranged_rows_are_the_rows<T: View, O: Order<T>>(rows: Seq<T::V>)
    ensures
        arranged::<T, O>(rows).to_multiset() == rows.to_multiset(),
        arranged::<T, O>(rows).len() == rows.len(),
        forall|row: T::V| #[trigger] arranged::<T, O>(rows).contains(row) <==> rows.contains(row),
    decreases rows.len(),
{
    broadcast use vstd::seq_lib::group_to_multiset_ensures;

    if rows.len() > 0 {
        arranged_rows_are_the_rows::<T, O>(rows.drop_last());
        lemma_placed_rows::<T, O>(arranged::<T, O>(rows.drop_last()), rows.last());
        assert(rows =~= rows.drop_last().push(rows.last()));
    }
    let out = arranged::<T, O>(rows);
    assert(out.to_multiset().len() == out.len());
    assert forall|row: T::V| #[trigger] out.contains(row) <==> rows.contains(row) by {
        out.to_multiset_ensures();
        rows.to_multiset_ensures();
        assert(out.contains(row) <==> out.to_multiset().count(row) > 0);
        assert(rows.contains(row) <==> rows.to_multiset().count(row) > 0);
    }
}

/// Rows that an order ranks totally stand in order when they are arranged.
pub proof fn arranged_rows_are_in_order<T: View, O: Order<T>>(rows: Seq<T::V>)
    requires
        is_total_among::<T, O>(rows),
    ensures
        in_order::<T, O>(arranged::<T, O>(rows)),
    decreases rows.len(),
{
    if rows.len() > 0 {
        let front = rows.drop_last();
        assert forall|a: T::V| front.contains(a) implies #[trigger] rows.contains(a) by {
            let k = choose|k: int| 0 <= k < front.len() && front[k] == a;
            assert(rows[k] == a);
        }
        arranged_rows_are_in_order::<T, O>(front);
        arranged_rows_are_the_rows::<T, O>(front);
        let sorted = arranged::<T, O>(front);
        assert forall|i: int| 0 <= i < sorted.len() implies rows.contains(#[trigger] sorted[i]) by {
            assert(sorted.contains(sorted[i]));
        }
        assert(rows.contains(rows.last())) by {
            assert(rows[rows.len() - 1] == rows.last());
        }
        lemma_placed::<T, O>(rows, sorted, rows.last());
    }
}

/// The rows at the given places.
pub open spec fn rows_at<V>(rows: Seq<V>, at: Seq<usize>) -> Seq<V> {
    at.map_values(|i: usize| rows[i as int])
}

/// Every place is one of a row.
pub open spec fn places_fit(at: Seq<usize>, len: nat) -> bool {
    forall|k: int| 0 <= k < at.len() ==> (#[trigger] at[k]) < len
}

proof fn lemma_insert<T: View, O: Order<T>>(sorted: Seq<T::V>, at: int, row: T::V)
    requires
        0 <= at <= sorted.len(),
        at > 0 ==> O::before(sorted[at - 1], row),
        forall|k: int| at <= k < sorted.len() ==> !O::before(#[trigger] sorted[k], row),
    ensures
        placed::<T, O>(sorted, row) == sorted.insert(at, row),
    decreases sorted.len(),
{
    if at == sorted.len() {
        assert(sorted.insert(at, row) =~= sorted.push(row));
    } else {
        let front = sorted.drop_last();
        assert(!O::before(sorted[sorted.len() - 1], row));
        assert forall|k: int| at <= k < front.len() implies !O::before(#[trigger] front[k], row) by {
            assert(front[k] == sorted[k]);
        }
        lemma_insert::<T, O>(front, at, row);
        assert(sorted.insert(at, row) =~= front.insert(at, row).push(sorted.last()));
    }
}

/// The places of the picked rows, in order.
pub fn arrange<T: View, O: Order<T>>(rows: &Vec<T>, picked: &Vec<usize>) -> (places: Vec<usize>)
    requires
        places_fit(picked@, rows@.len()),
    ensures
        places_fit(places@, rows@.len()),
        rows_at(views(rows@), places@) == arranged::<T, O>(rows_at(views(rows@), picked@)),
{
    let ghost shown = views(rows@);
    let mut places: Vec<usize> = Vec::new();
    assert(rows_at(shown, places@) =~= Seq::empty());
    assert(picked@.take(0) =~= Seq::empty());
    for n in 0..picked.len()
        invariant
            shown == views(rows@),
            places_fit(picked@, rows@.len()),
            places_fit(places@, rows@.len()),
            rows_at(shown, places@) == arranged::<T, O>(rows_at(shown, picked@.take(n as int))),
    {
        let row: usize = picked[n];
        let mut at: usize = places.len();
        while at > 0 && !O::stands_before(&rows[places[at - 1]], &rows[row])
            invariant
                at <= places@.len(),
                shown == views(rows@),
                row < rows@.len(),
                places_fit(places@, rows@.len()),
                forall|k: int|
                    at <= k < places@.len() ==> !O::before(
                        #[trigger] rows_at(shown, places@)[k],
                        shown[row as int],
                    ),
            decreases at,
        {
            at = at - 1;
            assert(rows_at(shown, places@)[at as int] == shown[places@[at as int] as int]);
        }
        let ghost sorted = rows_at(shown, places@);
        proof {
            if at > 0 {
                assert(sorted[at - 1] == shown[places@[at - 1] as int]);
            }
            lemma_insert::<T, O>(sorted, at as int, shown[row as int]);
            let so_far = rows_at(shown, picked@.take(n + 1));
            assert(so_far.drop_last() =~= rows_at(shown, picked@.take(n as int)));
            assert(so_far.last() == shown[row as int]);
        }
        let ghost before = places@;
        places.insert(at, row);
        assert(places@ =~= before.insert(at as int, row));
        assert(rows_at(shown, places@) =~= sorted.insert(at as int, shown[row as int]));
    }
    assert(picked@.take(picked@.len() as int) =~= picked@);
    places
}

/// The places of all rows, in order.
pub fn arrange_all<T: View, O: Order<T>>(rows: &Vec<T>) -> (places: Vec<usize>)
    ensures
        places_fit(places@, rows@.len()),
        rows_at(views(rows@), places@) == arranged::<T, O>(views(rows@)),
{
    let ghost shown = views(rows@);
    let mut all: Vec<usize> = Vec::new();
    for i in 0..rows.len()
        invariant
            i <= rows@.len(),
            shown == views(rows@),
            places_fit(all@, rows@.len()),
            rows_at(shown, all@) == shown.take(i as int),
    {
        let ghost before = all@;
        all.push(i);
        assert(rows_at(shown, all@) =~= rows_at(shown, before).push(shown[i as int]));
        assert(shown.take(i + 1) =~= shown.take(i as int).push(shown[i as int]));
    }
    assert(shown.take(shown.len() as int) =~= shown);
    arrange::<T, O>(rows, &all)
}

/// The row may stand before `x` and behind it.
pub open spec fn ranks_with<T: View, O: Order<T>>(x: T::V) -> spec_fn(T::V) -> bool {
    |row: T::V| O::before(row, x) && O::before(x, row)
}

proof fn lemma_placed_among<T: View, O: Order<T>>(
    all: Seq<T::V>,
    sorted: Seq<T::V>,
    row: T::V,
    x: T::V,
)
    requires
        is_total_among::<T, O>(all),
        all.contains(row),
        all.contains(x),
        forall|i: int| 0 <= i < sorted.len() ==> all.contains(#[trigger] sorted[i]),
    ensures
        placed::<T, O>(sorted, row).filter(ranks_with::<T, O>(x)) == if ranks_with::<T, O>(x)(
            row,
        ) {
            sorted.filter(ranks_with::<T, O>(x)).push(row)
        } else {
            sorted.filter(ranks_with::<T, O>(x))
        },
    decreases sorted.len(),
{
    reveal(Seq::filter);
    let keep = ranks_with::<T, O>(x);
    let out = placed::<T, O>(sorted, row);
    if sorted.len() == 0 || O::before(sorted.last(), row) {
        assert(out.drop_last() =~= sorted);
    } else {
        let front = sorted.drop_last();
        let last = sorted.last();
        assert(all.contains(sorted[sorted.len() - 1]));
        assert forall|i: int| 0 <= i < front.len() implies all.contains(#[trigger] front[i]) by {
            assert(front[i] == sorted[i]);
        }
        lemma_placed_among::<T, O>(all, front, row, x);
        assert(out.drop_last() =~= placed::<T, O>(front, row));
        assert(!(keep(last) && keep(row))) by {
            if keep(last) && keep(row) {
                assert(O::before(last, x) && O::before(x, row));
                assert(O::before(last, row));
            }
        }
    }
}

/// Rows between which the order makes no difference stay in the order in which
/// they came.
pub proof fn equal_rows_keep_their_order<T: View, O: Order<T>>(rows: Seq<T::V>, x: T::V)
    requires
        is_total_among::<T, O>(rows),
        rows.contains(x),
    ensures
        arranged::<T, O>(rows).filter(ranks_with::<T, O>(x)) == rows.filter(
            ranks_with::<T, O>(x),
        ),
{
    lemma_equal_rows::<T, O>(rows, rows, x);
}

proof fn lemma_equal_rows<T: View, O: Order<T>>(all: Seq<T::V>, rows: Seq<T::V>, x: T::V)
    requires
        is_total_among::<T, O>(all),
        all.contains(x),
        forall|i: int| 0 <= i < rows.len() ==> all.contains(#[trigger] rows[i]),
    ensures
        arranged::<T, O>(rows).filter(ranks_with::<T, O>(x)) == rows.filter(
            ranks_with::<T, O>(x),
        ),
    decreases rows.len(),
{
    reveal(Seq::filter);
    if rows.len() > 0 {
        let front = rows.drop_last();
        let sorted = arranged::<T, O>(front);
        assert forall|i: int| 0 <= i < front.len() implies all.contains(#[trigger] front[i]) by {
            assert(front[i] == rows[i]);
        }
        lemma_equal_rows::<T, O>(all, front, x);
        arranged_rows_are_the_rows::<T, O>(front);
        assert forall|i: int| 0 <= i < sorted.len() implies all.contains(#[trigger] sorted[i]) by {
            assert(sorted.contains(sorted[i]));
            let k = choose|k: int| 0 <= k < front.len() && front[k] == sorted[i];
            assert(all.contains(front[k]));
        }
        assert(all.contains(rows[rows.len() - 1]));
        lemma_placed_among::<T, O>(all, sorted, rows.last(), x);
    }
}

} // verus!
