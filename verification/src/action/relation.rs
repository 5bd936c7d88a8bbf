//! The `media` relation as mathematics.
//!
//! A table is a sequence of rows with pairwise distinct identifiers, newest
//! first. This module says what each query of the table yields and proves
//! what holds of the queries together.

use crate::entity::{Media, MediaView};
use vstd::prelude::*;

verus! {

/// No two rows share an identifier.
pub open spec fn ids_distinct(rows: Seq<MediaView>) -> bool {
    forall|i: int, j: int| 0 <= i < j < rows.len() ==> rows[i].hash_id != rows[j].hash_id
}

/// Rows are ordered by upload time, newest first.
pub open spec fn newest_first(rows: Seq<MediaView>) -> bool {
    forall|i: int, j: int| 0 <= i <= j < rows.len() ==> rows[i].uploaded >= rows[j].uploaded
}

/// What holds of every table.
pub open spec fn table_ok(rows: Seq<MediaView>) -> bool {
    ids_distinct(rows) && newest_first(rows)
}

/// Whether some row carries the identifier.
pub open spec fn holds_id(rows: Seq<MediaView>, id: Seq<char>) -> bool {
    exists|i: int| 0 <= i < rows.len() && #[trigger] rows[i].hash_id == id
}

/// Index of the first row that carries the identifier, or the number of rows
/// where none does.
pub open spec fn position(rows: Seq<MediaView>, id: Seq<char>) -> int
    decreases rows.len(),
{
    if rows.len() == 0 {
        0
    } else if rows[0].hash_id == id {
        0
    } else {
        1 + position(rows.drop_first(), id)
    }
}

/// The row that carries the identifier, if there is one.
pub open spec fn row_of(rows: Seq<MediaView>, id: Seq<char>) -> Option<MediaView> {
    if holds_id(rows, id) {
        Some(rows[position(rows, id)])
    } else {
        None
    }
}

/// Index at which a row uploaded at `at` enters the table: behind every row
/// that is at least as new.
pub open spec fn slot(rows: Seq<MediaView>, at: int) -> int
    decreases rows.len(),
{
    if rows.len() == 0 {
        0
    } else if rows[0].uploaded < at {
        0
    } else {
        1 + slot(rows.drop_first(), at)
    }
}

/// Whether a listing with the given cursor and privacy setting shows the row.
pub open spec fn listable(row: MediaView, latest: Option<int>, private_included: bool) -> bool {
    &&& private_included || !row.is_private
    &&& latest matches Some(cursor) ==> row.uploaded < cursor
}

/// Every row a listing may show, newest first.
pub open spec fn shown(rows: Seq<MediaView>, latest: Option<int>, private_included: bool) -> Seq<
    MediaView,
> {
    rows.filter(|row: MediaView| listable(row, latest, private_included))
}

/// The first `limit` items of `items`, or all of them where there are fewer.
pub open spec fn first_n<T>(items: Seq<T>, limit: nat) -> Seq<T> {
    if limit <= items.len() {
        items.take(limit as int)
    } else {
        items
    }
}

/// One page of a listing.
pub open spec fn page(
    rows: Seq<MediaView>,
    latest: Option<int>,
    limit: nat,
    private_included: bool,
) -> Seq<MediaView> {
    first_n(shown(rows, latest, private_included), limit)
}

/// The row after an update of its comment and privacy flag.
pub open spec fn revised(row: MediaView, private: bool, comment: Seq<char>) -> MediaView {
    MediaView { is_private: private, comment: Some(comment), ..row }
}

/// The views of a sequence of records.
pub open spec fn views(records: Seq<Media>) -> Seq<MediaView> {
    records.map_values(|record: Media| record@)
}

/// Where `position` points, and what lies before it.
pub proof fn lemma_position(rows: Seq<MediaView>, id: Seq<char>)
    ensures
        0 <= position(rows, id) <= rows.len(),
        position(rows, id) < rows.len() ==> rows[position(rows, id)].hash_id == id,
        forall|k: int| 0 <= k < position(rows, id) ==> (#[trigger] rows[k]).hash_id != id,
        holds_id(rows, id) <==> position(rows, id) < rows.len(),
    decreases rows.len(),
{
    if rows.len() == 0 {
    } else if rows[0].hash_id == id {
        assert(rows[0].hash_id == id);
    } else {
        let rest = rows.drop_first();
        lemma_position(rest, id);
        assert forall|k: int| 0 <= k < position(rows, id) implies (#[trigger] rows[k]).hash_id
            != id by {
            if k > 0 {
                assert(rows[k] == rest[k - 1]);
            }
        }
        if position(rest, id) < rest.len() {
            assert(rows[position(rows, id)] == rest[position(rest, id)]);
        }
        if holds_id(rows, id) {
            let i = choose|i: int| 0 <= i < rows.len() && #[trigger] rows[i].hash_id == id;
            assert(rest[i - 1] == rows[i]);
            assert(rest[i - 1].hash_id == id);
        }
    }
}

/// The index of a matching row that no matching row precedes is `position`.
pub proof fn lemma_position_is(rows: Seq<MediaView>, id: Seq<char>, at: int)
    requires
        0 <= at <= rows.len(),
        at < rows.len() ==> rows[at].hash_id == id,
        forall|k: int| 0 <= k < at ==> (#[trigger] rows[k]).hash_id != id,
    ensures
        position(rows, id) == at,
{
    lemma_position(rows, id);
    let p = position(rows, id);
    if p < at {
        assert(rows[p].hash_id != id);
    } else if at < p {
        assert(rows[at].hash_id != id);
    }
}

/// Where `slot` points in a table that is ordered newest first.
pub proof fn lemma_slot(rows: Seq<MediaView>, at: int)
    requires
        newest_first(rows),
    ensures
        0 <= slot(rows, at) <= rows.len(),
        forall|k: int| 0 <= k < slot(rows, at) ==> (#[trigger] rows[k]).uploaded >= at,
        forall|k: int| slot(rows, at) <= k < rows.len() ==> (#[trigger] rows[k]).uploaded < at,
    decreases rows.len(),
{
    if rows.len() == 0 {
    } else if rows[0].uploaded < at {
        assert forall|k: int| 0 <= k < rows.len() implies (#[trigger] rows[k]).uploaded < at by {
            assert(rows[0].uploaded >= rows[k].uploaded);
        }
    } else {
        let rest = rows.drop_first();
        assert(newest_first(rest)) by {
            assert forall|i: int, j: int| 0 <= i <= j < rest.len() implies rest[i].uploaded
                >= rest[j].uploaded by {
                assert(rest[i] == rows[i + 1]);
                assert(rest[j] == rows[j + 1]);
            }
        }
        lemma_slot(rest, at);
        assert forall|k: int| 0 <= k < slot(rows, at) implies (#[trigger] rows[k]).uploaded
            >= at by {
            if k > 0 {
                assert(rows[k] == rest[k - 1]);
            }
        }
        assert forall|k: int| slot(rows, at) <= k < rows.len() implies (#[trigger] rows[k]).uploaded
            < at by {
            assert(rows[k] == rest[k - 1]);
        }
    }
}

/// The index that separates the rows at least as new as `at` from the older
/// ones is `slot`.
pub proof fn lemma_slot_is(rows: Seq<MediaView>, at: int, index: int)
    requires
        newest_first(rows),
        0 <= index <= rows.len(),
        forall|k: int| 0 <= k < index ==> (#[trigger] rows[k]).uploaded >= at,
        index < rows.len() ==> rows[index].uploaded < at,
    ensures
        slot(rows, at) == index,
{
    lemma_slot(rows, at);
    let s = slot(rows, at);
    if s < index {
        assert(rows[s].uploaded >= at);
    } else if index < s {
        assert(rows[index].uploaded >= at);
    }
}

/// The cursor of a listing as a mathematical value.
pub open spec fn cursor_view(latest: Option<i128>) -> Option<int> {
    match latest {
        Some(bound) => Some(bound as int),
        None => None,
    }
}

/// Rows that pass a filter keep their order: each comes from the table, and
/// of two of them the earlier one comes from an earlier row.
proof fn lemma_filter_origin(rows: Seq<MediaView>, wanted: spec_fn(MediaView) -> bool)
    ensures
        forall|k: int|
            0 <= k < rows.filter(wanted).len() ==> wanted(#[trigger] rows.filter(wanted)[k])
                && rows.contains(rows.filter(wanted)[k]),
        newest_first(rows) ==> newest_first(rows.filter(wanted)),
        ids_distinct(rows) ==> ids_distinct(rows.filter(wanted)),
    decreases rows.len(),
{
    reveal(Seq::filter);
    if rows.len() > 0 {
        let front = rows.drop_last();
        let kept = front.filter(wanted);
        lemma_filter_origin(front, wanted);
        assert forall|k: int| 0 <= k < kept.len() implies rows.contains(#[trigger] kept[k]) by {
            let at = choose|at: int| 0 <= at < front.len() && front[at] == kept[k];
            assert(rows[at] == kept[k]);
        }
        assert forall|k: int| 0 <= k < rows.filter(wanted).len() implies wanted(
            #[trigger] rows.filter(wanted)[k],
        ) && rows.contains(rows.filter(wanted)[k]) by {
            if k < kept.len() {
                assert(rows.filter(wanted)[k] == kept[k]);
            } else {
                assert(rows.filter(wanted)[k] == rows.last());
                assert(rows[rows.len() - 1] == rows.last());
            }
        }
        if newest_first(rows) {
            assert(newest_first(front));
            let all = rows.filter(wanted);
            assert forall|i: int, j: int| 0 <= i <= j < all.len() implies all[i].uploaded
                >= all[j].uploaded by {
                if j < kept.len() {
                    assert(all[i] == kept[i] && all[j] == kept[j]);
                } else if i < kept.len() {
                    let at = choose|at: int| 0 <= at < front.len() && front[at] == kept[i];
                    assert(rows[at] == all[i]);
                    assert(all[j] == rows[rows.len() - 1]);
                }
            }
        }
        if ids_distinct(rows) {
            assert(ids_distinct(front));
            let all = rows.filter(wanted);
            assert forall|i: int, j: int| 0 <= i < j < all.len() implies all[i].hash_id
                != all[j].hash_id by {
                if j < kept.len() {
                    assert(all[i] == kept[i] && all[j] == kept[j]);
                } else {
                    let at = choose|at: int| 0 <= at < front.len() && front[at] == kept[i];
                    assert(rows[at] == all[i]);
                    assert(all[j] == rows[rows.len() - 1]);
                }
            }
        }
    }
}

/// A record that was stored under a free identifier is what a lookup of
/// that identifier returns, field for field.
pub proof fn lemma_stored_row_is_fetched(rows: Seq<MediaView>, row: MediaView)
    requires
        table_ok(rows),
        !holds_id(rows, row.hash_id),
    ensures
        row_of(rows.insert(slot(rows, row.uploaded), row), row.hash_id) == Some(row),
        table_ok(rows.insert(slot(rows, row.uploaded), row)),
{
    let at = slot(rows, row.uploaded);
    lemma_slot(rows, row.uploaded);
    let after = rows.insert(at, row);
    assert(after[at] == row);
    assert forall|k: int| 0 <= k < at implies (#[trigger] after[k]).hash_id != row.hash_id by {
        assert(after[k] == rows[k]);
    }
    lemma_position_is(after, row.hash_id, at);
    lemma_position(after, row.hash_id);
    assert forall|i: int, j: int| 0 <= i < j < after.len() implies after[i].hash_id
        != after[j].hash_id by {
        let a = if i < at { i } else { i - 1 };
        let b = if j < at { j } else { j - 1 };
        if i != at && j != at {
            assert(after[i] == rows[a] && after[j] == rows[b]);
        } else if i == at {
            assert(after[j] == rows[b]);
        } else {
            assert(after[i] == rows[a]);
        }
    }
    assert forall|i: int, j: int| 0 <= i <= j < after.len() implies after[i].uploaded
        >= after[j].uploaded by {
        let a = if i < at { i } else { i - 1 };
        let b = if j < at { j } else { j - 1 };
        if i != at && j != at {
            assert(after[i] == rows[a] && after[j] == rows[b]);
        } else if i == at && j != at {
            assert(after[j] == rows[b]);
        } else if j == at && i != at {
            assert(after[i] == rows[a]);
        }
    }
}

/// Records that are stored one after the other, each under an identifier
/// that is free at its turn, carry different identifiers.
pub proof fn lemma_stored_ids_differ(rows: Seq<MediaView>, first: MediaView, second: MediaView)
    requires
        table_ok(rows),
        !holds_id(rows, first.hash_id),
        !holds_id(rows.insert(slot(rows, first.uploaded), first), second.hash_id),
    ensures
        first.hash_id != second.hash_id,
{
    let at = slot(rows, first.uploaded);
    lemma_slot(rows, first.uploaded);
    let after = rows.insert(at, first);
    assert(after[at].hash_id == first.hash_id);
}

/// Storing a record leaves every other identifier's row as it was.
pub proof fn lemma_stored_row_keeps_others(rows: Seq<MediaView>, row: MediaView, id: Seq<char>)
    requires
        table_ok(rows),
        !holds_id(rows, row.hash_id),
        id != row.hash_id,
    ensures
        row_of(rows.insert(slot(rows, row.uploaded), row), id) == row_of(rows, id),
{
    let at = slot(rows, row.uploaded);
    lemma_slot(rows, row.uploaded);
    let after = rows.insert(at, row);
    lemma_position(rows, id);
    lemma_position(after, id);
    let p = position(rows, id);
    if p < rows.len() {
        let q = if p < at { p } else { p + 1 };
        assert(after[q] == rows[p]);
        assert forall|k: int| 0 <= k < q implies (#[trigger] after[k]).hash_id != id by {
            if k < at {
                assert(after[k] == rows[k]);
            } else if k > at {
                assert(after[k] == rows[k - 1]);
            }
        }
        lemma_position_is(after, id, q);
    } else {
        assert forall|k: int| 0 <= k < after.len() implies (#[trigger] after[k]).hash_id != id by {
            if k < at {
                assert(after[k] == rows[k]);
            } else if k > at {
                assert(after[k] == rows[k - 1]);
            }
        }
        lemma_position_is(after, id, after.len() as int);
    }
}

/// The table after an update of the row that carries the identifier; the
/// table itself where no row does.
pub open spec fn after_update(
    rows: Seq<MediaView>,
    id: Seq<char>,
    private: bool,
    comment: Seq<char>,
) -> Seq<MediaView> {
    if holds_id(rows, id) {
        rows.update(position(rows, id), revised(rows[position(rows, id)], private, comment))
    } else {
        rows
    }
}

/// The table after the removal of the row that carries the identifier; the
/// table itself where no row does.
pub open spec fn after_removal(rows: Seq<MediaView>, id: Seq<char>) -> Seq<MediaView> {
    if holds_id(rows, id) {
        rows.remove(position(rows, id))
    } else {
        rows
    }
}

/// Updating twice with the same comment and privacy flag is updating once:
/// the second update finds the row, returns the record the first returned
/// and leaves the table as the first left it.
pub proof fn lemma_update_idempotent(
    rows: Seq<MediaView>,
    id: Seq<char>,
    private: bool,
    comment: Seq<char>,
)
    requires
        table_ok(rows),
    ensures
        table_ok(after_update(rows, id, private, comment)),
        holds_id(after_update(rows, id, private, comment), id) == holds_id(rows, id),
        row_of(after_update(after_update(rows, id, private, comment), id, private, comment), id)
            == row_of(after_update(rows, id, private, comment), id),
        after_update(after_update(rows, id, private, comment), id, private, comment)
            == after_update(rows, id, private, comment),
        holds_id(rows, id) ==> row_of(after_update(rows, id, private, comment), id) == Some(
            revised(rows[position(rows, id)], private, comment),
        ),
{
    lemma_position(rows, id);
    if holds_id(rows, id) {
        let at = position(rows, id);
        let once = after_update(rows, id, private, comment);
        assert(once[at].hash_id == id);
        assert forall|k: int| 0 <= k < at implies (#[trigger] once[k]).hash_id != id by {
            assert(once[k] == rows[k]);
        }
        lemma_position_is(once, id, at);
        lemma_position(once, id);
        assert(revised(once[at], private, comment) == once[at]);
        assert(once.update(at, once[at]) =~= once);
        assert forall|i: int, j: int| 0 <= i < j < once.len() implies once[i].hash_id
            != once[j].hash_id by {
            assert(once[i].hash_id == rows[i].hash_id && once[j].hash_id == rows[j].hash_id);
        }
        assert forall|i: int, j: int| 0 <= i <= j < once.len() implies once[i].uploaded
            >= once[j].uploaded by {
            assert(once[i].uploaded == rows[i].uploaded && once[j].uploaded == rows[j].uploaded);
        }
    }
}

/// Once a record is deleted a lookup of its identifier finds nothing, and a
/// second deletion is answered with `NotFound`.
pub proof fn lemma_removed_row_is_gone(rows: Seq<MediaView>, id: Seq<char>)
    requires
        table_ok(rows),
    ensures
        !holds_id(after_removal(rows, id), id),
        row_of(after_removal(rows, id), id).is_none(),
        table_ok(after_removal(rows, id)),
{
    lemma_position(rows, id);
    let after = after_removal(rows, id);
    if holds_id(rows, id) {
        let at = position(rows, id);
        assert forall|k: int| 0 <= k < after.len() implies (#[trigger] after[k]).hash_id != id by {
            if k < at {
                assert(after[k] == rows[k]);
            } else {
                assert(after[k] == rows[k + 1]);
                assert(rows[at].hash_id != rows[k + 1].hash_id);
            }
        }
        assert forall|i: int, j: int| 0 <= i < j < after.len() implies after[i].hash_id
            != after[j].hash_id by {
            let a = if i < at { i } else { i + 1 };
            let b = if j < at { j } else { j + 1 };
            assert(after[i] == rows[a] && after[j] == rows[b]);
        }
        assert forall|i: int, j: int| 0 <= i <= j < after.len() implies after[i].uploaded
            >= after[j].uploaded by {
            let a = if i < at { i } else { i + 1 };
            let b = if j < at { j } else { j + 1 };
            assert(after[i] == rows[a] && after[j] == rows[b]);
        }
    }
}

/// A page holds at most `limit` records, each of them a row of the table
/// that the listing may show, no record twice, newest first.
pub proof fn lemma_page_is_ordered(
    rows: Seq<MediaView>,
    latest: Option<int>,
    limit: nat,
    private_included: bool,
)
    requires
        table_ok(rows),
    ensures
        page(rows, latest, limit, private_included).len() <= limit,
        newest_first(page(rows, latest, limit, private_included)),
        ids_distinct(page(rows, latest, limit, private_included)),
        forall|k: int|
            0 <= k < page(rows, latest, limit, private_included).len() ==> rows.contains(
                #[trigger] page(rows, latest, limit, private_included)[k],
            ) && listable(
                page(rows, latest, limit, private_included)[k],
                latest,
                private_included,
            ),
{
    let wanted = |row: MediaView| listable(row, latest, private_included);
    lemma_filter_origin(rows, wanted);
    let all = shown(rows, latest, private_included);
    let part = page(rows, latest, limit, private_included);
    assert forall|k: int| 0 <= k < part.len() implies part[k] == all[k] by {}
    assert forall|k: int| 0 <= k < part.len() implies rows.contains(#[trigger] part[k])
        && listable(part[k], latest, private_included) by {
        assert(part[k] == all[k]);
        assert(wanted(all[k]));
    }
}

/// Where no two records of a page were uploaded at the same time, the page
/// is strictly ordered: each record is older than the one before it.
pub proof fn lemma_page_is_strictly_ordered(
    rows: Seq<MediaView>,
    latest: Option<int>,
    limit: nat,
    private_included: bool,
)
    requires
        table_ok(rows),
        forall|i: int, j: int|
            0 <= i < j < page(rows, latest, limit, private_included).len() ==> page(
                rows,
                latest,
                limit,
                private_included,
            )[i].uploaded != page(rows, latest, limit, private_included)[j].uploaded,
    ensures
        forall|i: int, j: int|
            0 <= i < j < page(rows, latest, limit, private_included).len() ==> page(
                rows,
                latest,
                limit,
                private_included,
            )[i].uploaded > page(rows, latest, limit, private_included)[j].uploaded,
{
    lemma_page_is_ordered(rows, latest, limit, private_included);
}


/// Filtering by `both` is filtering by `first` and then by `second`, where
/// `both` holds exactly of what the two hold of.
proof fn lemma_filter_twice(
    rows: Seq<MediaView>,
    first: spec_fn(MediaView) -> bool,
    second: spec_fn(MediaView) -> bool,
    both: spec_fn(MediaView) -> bool,
)
    requires
        forall|row: MediaView| #[trigger] both(row) == (first(row) && second(row)),
    ensures
        rows.filter(both) == rows.filter(first).filter(second),
    decreases rows.len(),
{
    reveal(Seq::filter);
    if rows.len() > 0 {
        let front = rows.drop_last();
        lemma_filter_twice(front, first, second, both);
        if first(rows.last()) {
            front.filter(first).lemma_filter_push(rows.last(), second);
        }
    }
}

/// In rows ordered newest first, those older than the row before index
/// `from` are the rows from `from` on, where none of these is as old as it.
proof fn lemma_older_rows_are_a_suffix(rows: Seq<MediaView>, from: int, older: spec_fn(MediaView) -> bool)
    requires
        newest_first(rows),
        0 < from <= rows.len(),
        forall|row: MediaView| #[trigger] older(row) == (row.uploaded < rows[from - 1].uploaded),
        forall|k: int| from <= k < rows.len() ==> (#[trigger] rows[k]).uploaded != rows[from - 1].uploaded,
    ensures
        rows.filter(older) == rows.skip(from),
    decreases rows.len(),
{
    reveal(Seq::filter);
    let front = rows.drop_last();
    if rows.len() == from {
        assert forall|k: int| 0 <= k < rows.len() implies !older(#[trigger] rows[k]) by {
            assert(rows[k].uploaded >= rows[from - 1].uploaded);
        }
        rows.lemma_all_neg_filter_empty(older);
        assert(rows.skip(from) =~= Seq::<MediaView>::empty());
        assert(rows.filter(older) =~= Seq::<MediaView>::empty());
    } else {
        assert(front[from - 1] == rows[from - 1]);
        assert forall|k: int| from <= k < front.len() implies (#[trigger] front[k]).uploaded
            != front[from - 1].uploaded by {
            assert(front[k] == rows[k]);
        }
        assert(newest_first(front));
        lemma_older_rows_are_a_suffix(front, from, older);
        let last = rows.last();
        assert(rows[rows.len() - 1] == last);
        assert(rows[from - 1].uploaded >= last.uploaded);
        assert(older(last));
        assert(rows.skip(from) =~= front.skip(from).push(last));
    }
}

/// A listing whose cursor is the upload time of a page's oldest record
/// continues where that page ended, with no record of the page again and
/// none left out, unless a record behind the page was uploaded at the very
/// time of the page's oldest record.
pub proof fn lemma_next_page_continues(
    rows: Seq<MediaView>,
    latest: Option<int>,
    limit: nat,
    private_included: bool,
)
    requires
        table_ok(rows),
        page(rows, latest, limit, private_included).len() > 0,
        forall|k: int|
            page(rows, latest, limit, private_included).len() <= k < shown(
                rows,
                latest,
                private_included,
            ).len() ==> (#[trigger] shown(rows, latest, private_included)[k]).uploaded != page(
                rows,
                latest,
                limit,
                private_included,
            ).last().uploaded,
    ensures
        shown(
            rows,
            Some(page(rows, latest, limit, private_included).last().uploaded),
            private_included,
        ) == shown(rows, latest, private_included).skip(
            page(rows, latest, limit, private_included).len() as int,
        ),
        page(
            rows,
            Some(page(rows, latest, limit, private_included).last().uploaded),
            limit,
            private_included,
        ) == first_n(
            shown(rows, latest, private_included).skip(
                page(rows, latest, limit, private_included).len() as int,
            ),
            limit,
        ),
{
    let all = shown(rows, latest, private_included);
    let part = page(rows, latest, limit, private_included);
    let from = part.len() as int;
    let oldest = part.last().uploaded;
    assert(part.last() == all[from - 1]);
    let first = |row: MediaView| listable(row, latest, private_included);
    let second = |row: MediaView| row.uploaded < all[from - 1].uploaded;
    let both = |row: MediaView| listable(row, Some(oldest), private_included);
    lemma_filter_origin(rows, first);
    assert(first(all[from - 1]));
    assert forall|row: MediaView| #[trigger] both(row) == (first(row) && second(row)) by {}
    lemma_filter_twice(rows, first, second, both);
    lemma_older_rows_are_a_suffix(all, from, second);
}


/// The table after a row of insertions in the order in which they reach
/// it, whoever made them: a record enters where its identifier is free at
/// its turn and is refused where it is taken.
pub open spec fn after_inserts(rows: Seq<MediaView>, attempts: Seq<MediaView>) -> Seq<MediaView>
    decreases attempts.len(),
{
    if attempts.len() == 0 {
        rows
    } else {
        let before = after_inserts(rows, attempts.drop_last());
        let row = attempts.last();
        if holds_id(before, row.hash_id) {
            before
        } else {
            before.insert(slot(before, row.uploaded), row)
        }
    }
}

/// Whether the insertion at place `turn` of the row was stored: its
/// identifier was free after the insertions before it.
pub open spec fn is_stored(rows: Seq<MediaView>, attempts: Seq<MediaView>, turn: int) -> bool {
    !holds_id(after_inserts(rows, attempts.take(turn)), attempts[turn].hash_id)
}

/// Number of insertions of the row that were stored.
pub open spec fn stored_count(rows: Seq<MediaView>, attempts: Seq<MediaView>) -> nat
    decreases attempts.len(),
{
    if attempts.len() == 0 {
        0
    } else if is_stored(rows, attempts, attempts.len() - 1) {
        stored_count(rows, attempts.drop_last()) + 1
    } else {
        stored_count(rows, attempts.drop_last())
    }
}

/// However the insertions of any number of callers reach the table, one
/// after the other in any order: the table stays a table; it grows by one
/// row for each insertion that was stored; each stored record is what a
/// lookup of its identifier returns; no two stored records share an
/// identifier, and none has one that the table held before; and the rows
/// that the table held before are as they were.
pub proof fn lemma_interleaved_inserts(rows: Seq<MediaView>, attempts: Seq<MediaView>)
    requires
        table_ok(rows),
    ensures
        table_ok(after_inserts(rows, attempts)),
        after_inserts(rows, attempts).len() == rows.len() + stored_count(rows, attempts),
        forall|turn: int|
            0 <= turn < attempts.len() && #[trigger] is_stored(rows, attempts, turn) ==> row_of(
                after_inserts(rows, attempts),
                attempts[turn].hash_id,
            ) == Some(attempts[turn]) && !holds_id(rows, attempts[turn].hash_id),
        forall|one: int, other: int|
            0 <= one < other < attempts.len() && #[trigger] is_stored(rows, attempts, one)
                && #[trigger] is_stored(rows, attempts, other) ==> attempts[one].hash_id
                != attempts[other].hash_id,
        forall|id: Seq<char>|
            holds_id(rows, id) ==> #[trigger] row_of(after_inserts(rows, attempts), id) == row_of(
                rows,
                id,
            ),
    decreases attempts.len(),
{
    if attempts.len() > 0 {
        let front = attempts.drop_last();
        let last = attempts.len() - 1;
        let row = attempts.last();
        let before = after_inserts(rows, front);
        let after = after_inserts(rows, attempts);
        lemma_interleaved_inserts(rows, front);
        assert(attempts.take(last) =~= front);
        assert forall|turn: int| 0 <= turn < last implies is_stored(rows, attempts, turn)
            == is_stored(rows, front, turn) by {
            assert(attempts.take(turn) =~= front.take(turn));
        }
        let stored = !holds_id(before, row.hash_id);
        assert(stored == is_stored(rows, attempts, last));
        if stored {
            lemma_stored_row_is_fetched(before, row);
            lemma_slot(before, row.uploaded);
        }
        assert forall|id: Seq<char>| holds_id(before, id) implies #[trigger] row_of(after, id)
            == row_of(before, id) by {
            if stored {
                lemma_stored_row_keeps_others(before, row, id);
            }
        }
        assert forall|id: Seq<char>| holds_id(rows, id) implies #[trigger] row_of(after, id)
            == row_of(rows, id) by {
            assert(row_of(before, id) == row_of(rows, id));
            assert(holds_id(before, id));
        }
        assert forall|turn: int|
            0 <= turn < attempts.len() && #[trigger] is_stored(rows, attempts, turn) implies row_of(
            after,
            attempts[turn].hash_id,
        ) == Some(attempts[turn]) && !holds_id(rows, attempts[turn].hash_id) by {
            if turn < last {
                assert(is_stored(rows, front, turn));
                assert(front[turn] == attempts[turn]);
                assert(row_of(before, attempts[turn].hash_id) == Some(attempts[turn]));
                assert(holds_id(before, attempts[turn].hash_id));
            } else {
                if holds_id(rows, row.hash_id) {
                    assert(row_of(before, row.hash_id) == row_of(rows, row.hash_id));
                }
            }
        }
        assert forall|one: int, other: int|
            0 <= one < other < attempts.len() && #[trigger] is_stored(rows, attempts, one)
                && #[trigger] is_stored(rows, attempts, other) implies attempts[one].hash_id
            != attempts[other].hash_id by {
            if other < last {
                assert(is_stored(rows, front, one) && is_stored(rows, front, other));
                assert(front[one] == attempts[one] && front[other] == attempts[other]);
            } else {
                assert(is_stored(rows, front, one));
                assert(front[one] == attempts[one]);
                assert(row_of(before, attempts[one].hash_id) == Some(attempts[one]));
                assert(holds_id(before, attempts[one].hash_id));
            }
        }
    }
}

} // verus!
