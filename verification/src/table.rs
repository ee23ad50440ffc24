//! Tables: lists of rows of which no two have the same key. A row that comes
//! in takes the place of the row with its key, or goes to the end.
use crate::records::views;
use vstd::prelude::*;

verus! {

/// What a row holds, and the key it is found by.
pub trait Keyed: Sized {
    type Key;

    spec fn key(self) -> Self::Key;
}

/// A row of a table.
pub trait Row: View<V: Keyed> + Sized {
    /// Whether the two rows have the same key.
    fn same_key(&self, other: &Self) -> (same: bool)
        ensures
            same == (self@.key() == other@.key()),
    ;
}

/// No two rows have the same key.
pub open spec fn unique_keys<T: Keyed>(rows: Seq<T>) -> bool {
    forall|i: int, j: int| 0 <= i < j < rows.len() ==> rows[i].key() != rows[j].key()
}

/// Where the first row with the key stands; the number of rows if there is
/// none.
pub open spec fn position<T: Keyed>(rows: Seq<T>, key: T::Key) -> int
    decreases rows.len(),
{
    if rows.len() == 0 || rows[0].key() == key {
        0
    } else {
        1 + position(rows.drop_first(), key)
    }
}

/// Some row has the key.
pub open spec fn has_key<T: Keyed>(rows: Seq<T>, key: T::Key) -> bool {
    position(rows, key) < rows.len()
}

/// The row with the key, if there is one.
pub open spec fn row_with<T: Keyed>(rows: Seq<T>, key: T::Key) -> Option<T> {
    if has_key(rows, key) {
        Some(rows[position(rows, key)])
    } else {
        None
    }
}

/// The table with `row` in it: in the place of the row with its key, or at the
/// end.
pub open spec fn with_row<T: Keyed>(rows: Seq<T>, row: T) -> Seq<T> {
    if has_key(rows, row.key()) {
        rows.update(position(rows, row.key()), row)
    } else {
        rows.push(row)
    }
}

/// The table without the row with the key.
pub open spec fn without_key<T: Keyed>(rows: Seq<T>, key: T::Key) -> Seq<T> {
    if has_key(rows, key) {
        rows.remove(position(rows, key))
    } else {
        rows
    }
}

/// The table with each of `more` in it, one after the other.
pub open spec fn with_rows<T: Keyed>(rows: Seq<T>, more: Seq<T>) -> Seq<T>
    decreases more.len(),
{
    if more.len() == 0 {
        rows
    } else {
        with_row(with_rows(rows, more.drop_last()), more.last())
    }
}

/// The row that `position` gives is the first with the key.
pub proof fn position_is_first<T: Keyed>(rows: Seq<T>, key: T::Key)
    ensures
        0 <= position(rows, key) <= rows.len(),
        position(rows, key) < rows.len() ==> rows[position(rows, key)].key() == key,
        forall|i: int| 0 <= i < position(rows, key) ==> #[trigger] rows[i].key() != key,
    decreases rows.len(),
{
    if rows.len() > 0 && rows[0].key() != key {
        position_is_first(rows.drop_first(), key);
        assert forall|i: int| 0 <= i < position(rows, key) implies #[trigger] rows[i].key()
            != key by {
            if i > 0 {
                assert(rows[i] == rows.drop_first()[i - 1]);
            }
        }
    }
}

/// The first row with the key is where `position` says.
pub proof fn first_is_position<T: Keyed>(rows: Seq<T>, key: T::Key, at: int)
    requires
        0 <= at <= rows.len(),
        at < rows.len() ==> rows[at].key() == key,
        forall|i: int| 0 <= i < at ==> #[trigger] rows[i].key() != key,
    ensures
        position(rows, key) == at,
{
    position_is_first(rows, key);
}

/// A row that comes in leaves the keys unique.
pub proof fn row_keeps_keys_unique<T: Keyed>(rows: Seq<T>, row: T)
    requires
        unique_keys(rows),
    ensures
        unique_keys(with_row(rows, row)),
{
    position_is_first(rows, row.key());
}

/// Rows that come in leave the keys unique.
pub proof fn rows_keep_keys_unique<T: Keyed>(rows: Seq<T>, more: Seq<T>)
    requires
        unique_keys(rows),
    ensures
        unique_keys(with_rows(rows, more)),
    decreases more.len(),
{
    if more.len() > 0 {
        rows_keep_keys_unique(rows, more.drop_last());
        row_keeps_keys_unique(with_rows(rows, more.drop_last()), more.last());
    }
}

/// What was put in under a key is what is found under it.
pub proof fn row_is_read_back_own<T: Keyed>(rows: Seq<T>, row: T)
    ensures
        row_with(with_row(rows, row), row.key()) == Some(row),
{
    position_is_first(rows, row.key());
    first_is_position(with_row(rows, row), row.key(), position(rows, row.key()));
}

/// What was put in under a key is what is found under it; what is found under
/// every other key stays as it was.
pub proof fn row_is_read_back<T: Keyed>(rows: Seq<T>, row: T, other: T::Key)
    requires
        other != row.key(),
    ensures
        row_with(with_row(rows, row), row.key()) == Some(row),
        row_with(with_row(rows, row), other) == row_with(rows, other),
{
    let after = with_row(rows, row);
    let at = position(rows, row.key());
    position_is_first(rows, row.key());
    first_is_position(after, row.key(), at);
    position_is_first(rows, other);
    let there = position(rows, other);
    if there < rows.len() {
        assert(after[there] == rows[there]);
        first_is_position(after, other, there);
    } else {
        first_is_position(after, other, after.len() as int);
    }
}

/// The last of the rows with the key, if one has it.
pub open spec fn last_with<T: Keyed>(rows: Seq<T>, key: T::Key) -> Option<T>
    decreases rows.len(),
{
    if rows.len() == 0 {
        None
    } else if rows.last().key() == key {
        Some(rows.last())
    } else {
        last_with(rows.drop_last(), key)
    }
}

/// Of rows that come in with one key the last is found under it; under a key
/// that none of them has, what was found before.
pub proof fn last_row_counts<T: Keyed>(rows: Seq<T>, more: Seq<T>, key: T::Key)
    ensures
        row_with(with_rows(rows, more), key) == match last_with(more, key) {
            Some(row) => Some(row),
            None => row_with(rows, key),
        },
    decreases more.len(),
{
    if more.len() > 0 {
        let before = with_rows(rows, more.drop_last());
        last_row_counts(rows, more.drop_last(), key);
        if more.last().key() == key {
            row_is_read_back_own(before, more.last());
        } else {
            row_is_read_back(before, more.last(), key);
        }
    }
}

/// Putting the same row in again changes nothing.
pub proof fn row_settles<T: Keyed>(rows: Seq<T>, row: T)
    ensures
        with_row(with_row(rows, row), row) == with_row(rows, row),
{
    let after = with_row(rows, row);
    let at = position(rows, row.key());
    position_is_first(rows, row.key());
    first_is_position(after, row.key(), at);
    assert(after.update(at, row) =~= after);
}

/// Taking a row out leaves the keys unique.
pub proof fn taking_out_keeps_keys_unique<T: Keyed>(rows: Seq<T>, key: T::Key)
    requires
        unique_keys(rows),
    ensures
        unique_keys(without_key(rows, key)),
{
    let after = without_key(rows, key);
    let at = position(rows, key);
    position_is_first(rows, key);
    if at < rows.len() {
        assert forall|i: int, j: int| 0 <= i < j < after.len() implies after[i].key()
            != after[j].key() by {
            let a = if i < at {
                i
            } else {
                i + 1
            };
            let b = if j < at {
                j
            } else {
                j + 1
            };
            assert(after[i] == rows[a] && after[j] == rows[b]);
        }
    }
}

/// What was taken out is not found any more, and what is found under every
/// other key stays as it was.
pub proof fn row_is_taken_out<T: Keyed>(rows: Seq<T>, key: T::Key, other: T::Key)
    requires
        unique_keys(rows),
        other != key,
    ensures
        !has_key(without_key(rows, key), key),
        row_with(without_key(rows, key), other) == row_with(rows, other),
{
    let after = without_key(rows, key);
    let at = position(rows, key);
    position_is_first(rows, key);
    position_is_first(rows, other);
    let there = position(rows, other);
    if at < rows.len() {
        assert forall|i: int| 0 <= i < after.len() implies #[trigger] after[i].key() != key by {
            if i < at {
                assert(after[i] == rows[i]);
            } else {
                assert(after[i] == rows[i + 1]);
                assert(rows[at].key() != rows[i + 1].key());
            }
        }
        first_is_position(after, key, after.len() as int);
        if there < rows.len() {
            let moved = if there < at {
                there
            } else {
                there - 1
            };
            assert(after[moved] == rows[there]);
            assert forall|i: int| 0 <= i < moved implies #[trigger] after[i].key() != other by {
                if i < at {
                    assert(after[i] == rows[i]);
                } else {
                    assert(after[i] == rows[i + 1]);
                }
            }
            first_is_position(after, other, moved);
        } else {
            assert forall|i: int| 0 <= i < after.len() implies #[trigger] after[i].key()
                != other by {
                if i < at {
                    assert(after[i] == rows[i]);
                } else {
                    assert(after[i] == rows[i + 1]);
                }
            }
            first_is_position(after, other, after.len() as int);
        }
    }
}

/// Puts `row` into the table.
pub fn put_row<T: Row>(rows: &mut Vec<T>, row: T)
    ensures
        views(final(rows)@) == with_row(views(old(rows)@), row@),
{
    let ghost before = views(rows@);
    let mut at: usize = 0;
    while at < rows.len() && !rows[at].same_key(&row)
        invariant
            at <= rows.len(),
            before == views(rows@),
            forall|i: int| 0 <= i < at ==> #[trigger] before[i].key() != row@.key(),
        decreases rows.len() - at,
    {
        at = at + 1;
    }
    proof {
        first_is_position(before, row@.key(), at as int);
    }
    if at < rows.len() {
        rows.set(at, row);
        assert(views(rows@) =~= before.update(at as int, row@));
    } else {
        rows.push(row);
        assert(views(rows@) =~= before.push(row@));
    }
}

/// Whether no two rows have the same key.
pub fn keys_are_unique<T: Row>(rows: &Vec<T>) -> (yes: bool)
    ensures
        yes == unique_keys(views(rows@)),
{
    let ghost shown = views(rows@);
    let mut i: usize = 0;
    while i < rows.len()
        invariant
            i <= rows.len(),
            shown == views(rows@),
            forall|a: int, b: int|
                0 <= a < i && a < b < rows.len() ==> shown[a].key() != shown[b].key(),
        decreases rows.len() - i,
    {
        let mut j: usize = i + 1;
        while j < rows.len()
            invariant
                i < j <= rows.len(),
                shown == views(rows@),
                forall|b: int| i < b < j ==> shown[i as int].key() != #[trigger] shown[b].key(),
            decreases rows.len() - j,
        {
            if rows[i].same_key(&rows[j]) {
                assert(shown[i as int].key() == shown[j as int].key());
                return false;
            }
            j = j + 1;
        }
        i = i + 1;
    }
    true
}

/// A row that comes in takes the place of the row with its key, and where there
/// is none, goes to the end; every row with another key stays as it is and
/// where it is.
pub proof fn row_takes_its_place<T: Keyed>(rows: Seq<T>, row: T)
    ensures
        (exists|i: int| 0 <= i < rows.len() && (#[trigger] rows[i]).key() == row.key())
            ==> with_row(rows, row).len() == rows.len() && with_row(rows, row).contains(row),
        !(exists|i: int| 0 <= i < rows.len() && (#[trigger] rows[i]).key() == row.key())
            ==> with_row(rows, row) == rows.push(row),
        forall|i: int|
            0 <= i < rows.len() && (#[trigger] rows[i]).key() != row.key() ==> with_row(
                rows,
                row,
            )[i] == rows[i],
        unique_keys(rows) ==> forall|i: int|
            0 <= i < with_row(rows, row).len() && (#[trigger] with_row(rows, row)[i]).key()
                == row.key() ==> with_row(rows, row)[i] == row,
{
    let after = with_row(rows, row);
    let at = position(rows, row.key());
    position_is_first(rows, row.key());
    assert(after[at] == row);
    if unique_keys(rows) {
        row_keeps_keys_unique(rows, row);
        assert forall|i: int|
            0 <= i < after.len() && (#[trigger] after[i]).key() == row.key() implies after[i]
            == row by {
            if i < at {
                assert(after[i].key() != after[at].key());
            }
            if i > at {
                assert(after[at].key() != after[i].key());
            }
        }
    }
}

/// Of rows that come in one after the other the last with its key is the one
/// that is found under it.
pub proof fn last_of_its_key_counts<T: Keyed>(rows: Seq<T>, more: Seq<T>, n: int)
    requires
        0 <= n < more.len(),
        forall|i: int| n < i < more.len() ==> (#[trigger] more[i]).key() != more[n].key(),
    ensures
        row_with(with_rows(rows, more), more[n].key()) == Some(more[n]),
    decreases more.len(),
{
    let front = more.drop_last();
    let before = with_rows(rows, front);
    let last = more.last();
    if n == more.len() - 1 {
        row_is_read_back_own(before, last);
    } else {
        assert forall|i: int| n < i < front.len() implies (#[trigger] front[i]).key()
            != front[n].key() by {
            assert(front[i] == more[i]);
        }
        last_of_its_key_counts(rows, front, n);
        assert(more[more.len() - 1].key() != more[n].key());
        row_is_read_back(before, last, more[n].key());
    }
}

/// Rows that come in change nothing of what is found under a key that none of
/// them has.
pub proof fn other_rows_stay<T: Keyed>(rows: Seq<T>, more: Seq<T>, key: T::Key)
    requires
        forall|i: int| 0 <= i < more.len() ==> (#[trigger] more[i]).key() != key,
    ensures
        row_with(with_rows(rows, more), key) == row_with(rows, key),
    decreases more.len(),
{
    if more.len() > 0 {
        let front = more.drop_last();
        assert forall|i: int| 0 <= i < front.len() implies (#[trigger] front[i]).key() != key by {
            assert(front[i] == more[i]);
        }
        other_rows_stay(rows, front, key);
        assert(more[more.len() - 1].key() != key);
        row_is_read_back(with_rows(rows, front), more.last(), key);
    }
}

/// What is found under a key is a row that has it, and of rows with different
/// keys it is the only one.
pub proof fn found_row_has_the_key<T: Keyed>(rows: Seq<T>, key: T::Key)
    ensures
        row_with(rows, key) is Some <==> exists|i: int|
            0 <= i < rows.len() && (#[trigger] rows[i]).key() == key,
        row_with(rows, key) matches Some(row) ==> rows.contains(row) && row.key() == key,
        unique_keys(rows) ==> forall|i: int|
            0 <= i < rows.len() && (#[trigger] rows[i]).key() == key ==> row_with(rows, key)
                == Some(rows[i]),
{
    position_is_first(rows, key);
    let at = position(rows, key);
    if at < rows.len() {
        assert(rows[at].key() == key);
        if unique_keys(rows) {
            assert forall|i: int| 0 <= i < rows.len() && (#[trigger] rows[i]).key()
                == key implies i == at by {
                if at < i {
                    assert(rows[at].key() != rows[i].key());
                }
            }
        }
    }
}

} // verus!
