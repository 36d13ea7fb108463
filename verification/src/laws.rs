use vstd::prelude::*;
use crate::entry::{EntryView, valid_fields};
use crate::goal::GoalView;
use crate::lex::{lex_le, lemma_lex_antisym, lemma_lex_refl};
use crate::seqtools::{lemma_filter_equiv, lemma_filter_none, lemma_filter_push, lemma_filter_single, lemma_filter_subset};
use crate::stats::total_volume;
use crate::store::{
    LogView, RowView, date_in_range, insert_sorted, keep_other_ids, lemma_insert_sorted_wf,
    made_entry, made_row, range_pred, row_before, rows_entries, rows_sorted,
    rows_stamps_distinct, seq_has_id, spec_get,
};

verus! {

/// The row filter that keeps exactly one date.
pub open spec fn same_date_pred(d: Seq<char>) -> spec_fn(RowView) -> bool {
    |r: RowView| r.entry.date == d
}

/// A filter of a strictly ordered row sequence is strictly ordered.
pub proof fn lemma_filter_sorted(rows: Seq<RowView>, p: spec_fn(RowView) -> bool)
    requires
        rows_sorted(rows),
    ensures
        rows_sorted(rows.filter(p)),
    decreases rows.len(),
{
    if rows.len() > 0 {
        let s = rows.drop_last();
        let x = rows.last();
        assert(rows =~= s.push(x));
        lemma_filter_push(s, x, p);
        assert(forall|a: int, b: int|
            0 <= a < b < s.len() ==> row_before(#[trigger] s[a], #[trigger] s[b]));
        lemma_filter_sorted(s, p);
        lemma_filter_subset(s, p);
        let f = rows.filter(p);
        let fd = s.filter(p);
        assert forall|a: int, b: int| 0 <= a < b < f.len() implies row_before(
            #[trigger] f[a],
            #[trigger] f[b],
        ) by {
            if p(x) && b == f.len() - 1 {
                assert(f[b] == x);
                assert(f[a] == fd[a]);
                assert(s.contains(fd[a]));
                let j = choose|j: int| 0 <= j < s.len() && s[j] == fd[a];
                assert(rows[j] == s[j]);
                assert(rows[rows.len() - 1] == x);
                assert(row_before(rows[j], rows[rows.len() - 1]));
            } else {
                assert(f[a] == fd[a]);
                assert(f[b] == fd[b]);
            }
        }
    }
}

/// Range queries are idempotent: without intervening mutation, two queries
/// over the same bounds observe the very same result, because the result is
/// a function of the store and the bounds alone.
pub proof fn lemma_get_idempotent(
    m: LogView,
    start: Seq<char>,
    end: Seq<char>,
    r1: Seq<EntryView>,
    r2: Seq<EntryView>,
)
    requires
        r1 == spec_get(m, start, end),
        r2 == spec_get(m, start, end),
    ensures
        r1 == r2,
{
}

/// Query output is ordered: the rows a range query picks stay strictly
/// ordered by date descending with ties broken by creation descending, so
/// the returned dates never ascend.
pub proof fn lemma_get_ordered(m: LogView, start: Seq<char>, end: Seq<char>)
    requires
        m.wf(),
    ensures
        rows_sorted(m.rows.filter(range_pred(start, end))),
        spec_get(m, start, end) == rows_entries(m.rows.filter(range_pred(start, end))),
        forall|i: int, j: int|
            0 <= i < j < spec_get(m, start, end).len() ==> lex_le(
                #[trigger] spec_get(m, start, end)[j].date,
                #[trigger] spec_get(m, start, end)[i].date,
            ),
{
    lemma_filter_sorted(m.rows, range_pred(start, end));
    let picked = m.rows.filter(range_pred(start, end));
    let out = spec_get(m, start, end);
    assert forall|i: int, j: int| 0 <= i < j < out.len() implies lex_le(
        #[trigger] out[j].date,
        #[trigger] out[i].date,
    ) by {
        assert(out[i] == picked[i].entry);
        assert(out[j] == picked[j].entry);
        assert(row_before(picked[i], picked[j]));
        if picked[i].entry.date == picked[j].entry.date {
            lemma_lex_refl(picked[i].entry.date);
        }
    }
}

/// A freshly added entry is found again: after inserting a validated entry
/// under a fresh id on a date no other entry carries, the single-day query
/// over that date returns exactly that one entry, with the submitted name,
/// percentage and volume.
pub proof fn lemma_add_then_get(
    m: LogView,
    id: Seq<char>,
    name: Seq<char>,
    pct: int,
    vol: int,
    date: Seq<char>,
    notes: Seq<char>,
)
    requires
        m.wf(),
        valid_fields(name, pct, vol),
        !seq_has_id(m.rows, id),
        forall|i: int| 0 <= i < m.rows.len() ==> (#[trigger] m.rows[i]).entry.date != date,
    ensures
        ({
            let e = made_entry(id, name, pct, vol, date, notes);
            let m2 = LogView {
                rows: insert_sorted(m.rows, made_row(e, m.next_stamp)),
                goal: m.goal,
                next_stamp: m.next_stamp + 1,
            };
            spec_get(m2, date, date) == seq![e]
        }),
{
    let e = made_entry(id, name, pct, vol, date, notes);
    let row = made_row(e, m.next_stamp);
    let p = range_pred(date, date);
    lemma_insert_sorted_wf(m.rows, row, m.next_stamp + 1);
    let rows2 = insert_sorted(m.rows, row);
    let i0 = choose|i: int| 0 <= i < rows2.len() && rows2[i] == row;
    assert(rows_stamps_distinct(rows2));
    assert forall|k: int| 0 <= k < rows2.len() && k != i0 implies !p(#[trigger] rows2[k]) by {
        if rows2[k] == row {
            assert(rows2[k].stamp == rows2[i0].stamp);
            assert(false);
        } else {
            assert(m.rows.contains(rows2[k]));
            let j = choose|j: int| 0 <= j < m.rows.len() && m.rows[j] == rows2[k];
            assert(m.rows[j].entry.date != date);
            if date_in_range(rows2[k].entry.date, date, date) {
                lemma_lex_antisym(date, rows2[k].entry.date);
            }
        }
    }
    assert(p(rows2[i0])) by {
        lemma_lex_refl(date);
    }
    lemma_filter_single(rows2, p, i0);
    assert(rows_entries(seq![row]) =~= seq![e]);
}

/// A single-day query catches exactly the entries dated that day, and sums
/// to zero where no entry carries the date.
pub proof fn lemma_daily_exact(m: LogView, d: Seq<char>)
    ensures
        spec_get(m, d, d) == rows_entries(m.rows.filter(same_date_pred(d))),
        (forall|i: int| 0 <= i < m.rows.len() ==> (#[trigger] m.rows[i]).entry.date != d)
            ==> spec_get(m, d, d) == Seq::<EntryView>::empty() && total_volume(spec_get(m, d, d))
            == 0,
{
    assert forall|k: int| 0 <= k < m.rows.len() implies range_pred(d, d)(#[trigger] m.rows[k])
        == same_date_pred(d)(m.rows[k]) by {
        if date_in_range(m.rows[k].entry.date, d, d) {
            lemma_lex_antisym(d, m.rows[k].entry.date);
        }
        if m.rows[k].entry.date == d {
            lemma_lex_refl(d);
        }
    }
    lemma_filter_equiv(m.rows, range_pred(d, d), same_date_pred(d));
    if forall|i: int| 0 <= i < m.rows.len() ==> (#[trigger] m.rows[i]).entry.date != d {
        assert forall|k: int| 0 <= k < m.rows.len() implies !range_pred(d, d)(
            #[trigger] m.rows[k],
        ) by {
            if date_in_range(m.rows[k].entry.date, d, d) {
                lemma_lex_antisym(d, m.rows[k].entry.date);
            }
        }
        lemma_filter_none(m.rows, range_pred(d, d));
        assert(rows_entries(Seq::<RowView>::empty()) =~= Seq::<EntryView>::empty());
    }
}

/// A range query reads exactly the in-window entries: every returned entry
/// is dated within the closed interval, every stored entry dated within it
/// is returned, and the query yields nothing — so a summed total of zero —
/// where no stored date falls inside. Together with the weekly-consumption
/// contract this pins the seven-day reading to the volumes of exactly the
/// entries dated within `[start, start + 6 days]`; the query itself takes
/// the store by shared reference and mutates nothing.
pub proof fn lemma_window_total(m: LogView, start: Seq<char>, end: Seq<char>)
    ensures
        forall|k: int|
            0 <= k < spec_get(m, start, end).len() ==> date_in_range(
                (#[trigger] spec_get(m, start, end)[k]).date,
                start,
                end,
            ),
        forall|i: int|
            0 <= i < m.rows.len() && date_in_range(
                (#[trigger] m.rows[i]).entry.date,
                start,
                end,
            ) ==> spec_get(m, start, end).contains(m.rows[i].entry),
        (forall|i: int|
            0 <= i < m.rows.len() ==> !date_in_range(
                (#[trigger] m.rows[i]).entry.date,
                start,
                end,
            )) ==> spec_get(m, start, end) == Seq::<EntryView>::empty() && total_volume(
            spec_get(m, start, end),
        ) == 0,
{
    broadcast use vstd::seq_lib::group_filter_ensures;

    let p = range_pred(start, end);
    let picked = m.rows.filter(p);
    let out = spec_get(m, start, end);
    assert forall|k: int| 0 <= k < out.len() implies date_in_range(
        (#[trigger] out[k]).date,
        start,
        end,
    ) by {
        assert(out[k] == picked[k].entry);
        assert(p(picked[k]));
    }
    assert forall|i: int|
        0 <= i < m.rows.len() && date_in_range(
            (#[trigger] m.rows[i]).entry.date,
            start,
            end,
        ) implies out.contains(m.rows[i].entry) by {
        assert(p(m.rows[i]));
        assert(picked.contains(m.rows[i]));
        let j = choose|j: int| 0 <= j < picked.len() && picked[j] == m.rows[i];
        assert(out[j] == picked[j].entry);
    }
    if forall|i: int|
        0 <= i < m.rows.len() ==> !date_in_range((#[trigger] m.rows[i]).entry.date, start, end) {
        assert forall|i: int| 0 <= i < m.rows.len() implies !p(#[trigger] m.rows[i]) by {}
        lemma_filter_none(m.rows, p);
        assert(rows_entries(Seq::<RowView>::empty()) =~= Seq::<EntryView>::empty());
    }
}

/// Replacing the goal twice leaves only the second replacement's values: the
/// resulting store is exactly the one-replacement store, with the entries
/// untouched and the current goal carrying the second call's targets and
/// dates — no trace of the first remains.
pub proof fn lemma_set_twice(
    m: LogView,
    m1: LogView,
    m2: LogView,
    g1: GoalView,
    g2: GoalView,
)
    requires
        m1.rows == m.rows,
        m1.next_stamp == m.next_stamp,
        m1.goal == Some(g1),
        m2.rows == m1.rows,
        m2.next_stamp == m1.next_stamp,
        m2.goal == Some(g2),
    ensures
        m2 == (LogView { rows: m.rows, goal: Some(g2), next_stamp: m.next_stamp }),
        m2.goal matches Some(g) && g == g2,
{
}

/// The upsert of an entry whose id nobody carries removes nothing: its
/// outcome over a store free of that id is a plain sorted insertion.
pub proof fn lemma_upsert_fresh_is_insert(rows: Seq<RowView>, e: EntryView, stamp: nat)
    requires
        !seq_has_id(rows, e.id),
    ensures
        crate::store::upsert_rows(rows, e, stamp) == insert_sorted(rows, made_row(e, stamp)),
{
    assert forall|k: int| 0 <= k < rows.len() implies keep_other_ids(e.id)(
        #[trigger] rows[k],
    ) by {}
    crate::seqtools::lemma_filter_all(rows, keep_other_ids(e.id));
}

} // verus!
