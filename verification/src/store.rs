use vstd::prelude::*;
use vstd::string::StringExecFns;
use crate::dates::today_date;
use crate::entry::{BeerEntry, EntryView, check_entry_fields, valid_entry, valid_fields};
use crate::error::BrewLogError;
use crate::goal::{ConsumptionGoal, GoalView, valid_goal};
use crate::ids::fresh_id;
use crate::lex::{
    lex_le, lex_lt, str_le, lemma_lex_total, lemma_lex_antisym, lemma_lex_lt_trans,
};
use crate::seqtools::{lemma_filter_all, lemma_filter_push};

verus! {

/// One persisted row: the entry itself plus a creation stamp. Stamps grow
/// with every insertion, so a larger stamp means a more recently created
/// row; they model the creation timestamp the store orders ties by.
pub(crate) struct Row {
    pub(crate) entry: BeerEntry,
    pub(crate) stamp: u64,
}

/// The mathematical image of a row.
pub ghost struct RowView {
    pub entry: EntryView,
    pub stamp: nat,
}

impl View for Row {
    type V = RowView;

    closed spec fn view(&self) -> RowView {
        RowView { entry: self.entry@, stamp: self.stamp as nat }
    }
}

/// The image of a row vector.
pub(crate) open spec fn rows_view(s: Seq<Row>) -> Seq<RowView> {
    s.map_values(|r: Row| r@)
}

/// The image of an entry vector.
pub open spec fn entries_view(v: Seq<BeerEntry>) -> Seq<EntryView> {
    v.map_values(|e: BeerEntry| e@)
}

/// The entries of a row sequence, in the same order.
pub open spec fn rows_entries(s: Seq<RowView>) -> Seq<EntryView> {
    s.map_values(|r: RowView| r.entry)
}

/// `a` comes before `b` in query order: later date first, and for equal
/// dates the more recently created row first.
pub open spec fn row_before(a: RowView, b: RowView) -> bool {
    lex_lt(b.entry.date, a.entry.date) || (a.entry.date == b.entry.date && a.stamp > b.stamp)
}

/// The row sequence is strictly ordered by `row_before`.
pub open spec fn rows_sorted(rows: Seq<RowView>) -> bool {
    forall|i: int, j: int|
        0 <= i < j < rows.len() ==> row_before(#[trigger] rows[i], #[trigger] rows[j])
}

/// No two rows share a creation stamp.
pub open spec fn rows_stamps_distinct(rows: Seq<RowView>) -> bool {
    forall|i: int, j: int|
        0 <= i < j < rows.len() ==> (#[trigger] rows[i]).stamp != (#[trigger] rows[j]).stamp
}

/// No two rows share an id.
pub open spec fn rows_ids_distinct(rows: Seq<RowView>) -> bool {
    forall|i: int, j: int|
        0 <= i < j < rows.len() ==> (#[trigger] rows[i]).entry.id != (#[trigger] rows[j]).entry.id
}

/// Every row holds a validated entry.
pub open spec fn rows_all_valid(rows: Seq<RowView>) -> bool {
    forall|i: int| 0 <= i < rows.len() ==> valid_entry((#[trigger] rows[i]).entry)
}

/// Every stamp lies below the store's next free stamp.
pub open spec fn rows_stamps_below(rows: Seq<RowView>, bound: nat) -> bool {
    forall|i: int| 0 <= i < rows.len() ==> (#[trigger] rows[i]).stamp < bound
}

/// Some row carries the given id.
pub open spec fn seq_has_id(rows: Seq<RowView>, id: Seq<char>) -> bool {
    exists|i: int| 0 <= i < rows.len() && (#[trigger] rows[i]).entry.id == id
}

/// The date lies in the closed interval `[start, end]`.
pub open spec fn date_in_range(date: Seq<char>, start: Seq<char>, end: Seq<char>) -> bool {
    lex_le(start, date) && lex_le(date, end)
}

/// The row filter of a range query.
pub open spec fn range_pred(start: Seq<char>, end: Seq<char>) -> spec_fn(RowView) -> bool {
    |r: RowView| date_in_range(r.entry.date, start, end)
}

/// The row filter that keeps every id but the given one.
pub open spec fn keep_other_ids(id: Seq<char>) -> spec_fn(RowView) -> bool {
    |r: RowView| r.entry.id != id
}

/// The mathematical image of the whole store: the rows in query order, the
/// current goal if any, and the next free creation stamp.
pub ghost struct LogView {
    pub rows: Seq<RowView>,
    pub goal: Option<GoalView>,
    pub next_stamp: nat,
}

impl LogView {
    /// Well-formedness: rows strictly ordered by date (descending) and
    /// creation stamp (descending within a date), stamps and ids unique,
    /// every entry validated, every stamp below the next free one, and the
    /// goal validated if present.
    pub open spec fn wf(self) -> bool {
        &&& rows_sorted(self.rows)
        &&& rows_stamps_distinct(self.rows)
        &&& rows_ids_distinct(self.rows)
        &&& rows_all_valid(self.rows)
        &&& rows_stamps_below(self.rows, self.next_stamp)
        &&& (self.goal matches Some(g) ==> valid_goal(g))
    }

    /// Some row carries the given id.
    pub open spec fn has_id(self, id: Seq<char>) -> bool {
        seq_has_id(self.rows, id)
    }
}

/// What a range query returns on a given store: the entries of the rows
/// whose date lies in the closed interval, in stored order.
pub open spec fn spec_get(m: LogView, start: Seq<char>, end: Seq<char>) -> Seq<EntryView> {
    rows_entries(m.rows.filter(range_pred(start, end)))
}

/// Where a fresh row lands in a row sequence: before the first row it
/// precedes.
pub open spec fn insert_sorted(rows: Seq<RowView>, row: RowView) -> Seq<RowView>
    decreases rows.len(),
{
    if rows.len() == 0 {
        seq![row]
    } else if row_before(row, rows[0]) {
        seq![row] + rows
    } else {
        seq![rows[0]] + insert_sorted(rows.drop_first(), row)
    }
}

/// Rows with distinct stamps are always comparable.
pub proof fn lemma_row_order_total(a: RowView, b: RowView)
    requires
        a.stamp != b.stamp,
    ensures
        row_before(a, b) || row_before(b, a),
{
    if a.entry.date != b.entry.date {
        lemma_lex_total(a.entry.date, b.entry.date);
        if lex_le(a.entry.date, b.entry.date) && lex_le(b.entry.date, a.entry.date) {
            lemma_lex_antisym(a.entry.date, b.entry.date);
        }
    }
}

/// The row order is transitive.
pub proof fn lemma_row_order_trans(a: RowView, b: RowView, c: RowView)
    requires
        row_before(a, b),
        row_before(b, c),
    ensures
        row_before(a, c),
{
    if lex_lt(b.entry.date, a.entry.date) && lex_lt(c.entry.date, b.entry.date) {
        lemma_lex_lt_trans(c.entry.date, b.entry.date, a.entry.date);
    }
}

/// The sorted insertion lands at the first position whose row the fresh row
/// precedes.
pub proof fn lemma_insert_sorted_at(rows: Seq<RowView>, row: RowView, i: int)
    requires
        0 <= i <= rows.len(),
        forall|k: int| 0 <= k < i ==> !row_before(row, #[trigger] rows[k]),
        i < rows.len() ==> row_before(row, rows[i]),
    ensures
        insert_sorted(rows, row) == rows.insert(i, row),
    decreases rows.len(),
{
    if rows.len() == 0 {
        assert(insert_sorted(rows, row) =~= rows.insert(0, row));
    } else if row_before(row, rows[0]) {
        assert(i == 0);
        assert(seq![row] + rows =~= rows.insert(0, row));
    } else {
        assert(i >= 1);
        let rest = rows.drop_first();
        assert(forall|k: int| 0 <= k < i - 1 ==> !row_before(row, #[trigger] rest[k]));
        lemma_insert_sorted_at(rest, row, i - 1);
        assert(seq![rows[0]] + rest.insert(i - 1, row) =~= rows.insert(i, row));
    }
}

/// The sorted insertion of a fresh, validated row preserves every
/// well-formedness component, adds exactly that row, and keeps all others.
pub proof fn lemma_insert_sorted_wf(rows: Seq<RowView>, row: RowView, bound: nat)
    requires
        rows_sorted(rows),
        rows_stamps_distinct(rows),
        rows_ids_distinct(rows),
        rows_all_valid(rows),
        rows_stamps_below(rows, bound),
        forall|k: int| 0 <= k < rows.len() ==> (#[trigger] rows[k]).stamp != row.stamp,
        forall|k: int| 0 <= k < rows.len() ==> (#[trigger] rows[k]).entry.id != row.entry.id,
        valid_entry(row.entry),
        row.stamp < bound,
    ensures
        insert_sorted(rows, row).len() == rows.len() + 1,
        insert_sorted(rows, row).contains(row),
        forall|i: int|
            0 <= i < insert_sorted(rows, row).len() ==> #[trigger] insert_sorted(rows, row)[i]
                == row || rows.contains(insert_sorted(rows, row)[i]),
        rows_sorted(insert_sorted(rows, row)),
        rows_stamps_distinct(insert_sorted(rows, row)),
        rows_ids_distinct(insert_sorted(rows, row)),
        rows_all_valid(insert_sorted(rows, row)),
        rows_stamps_below(insert_sorted(rows, row), bound),
    decreases rows.len(),
{
    let t = insert_sorted(rows, row);
    if rows.len() == 0 {
        assert(t =~= seq![row]);
        assert(t[0] == row);
    } else if row_before(row, rows[0]) {
        assert(t =~= seq![row] + rows);
        assert(t[0] == row);
        assert forall|k: int| 1 <= k < t.len() implies row_before(row, #[trigger] t[k]) by {
            assert(t[k] == rows[k - 1]);
            if k >= 2 {
                lemma_row_order_trans(row, rows[0], rows[k - 1]);
            }
        }
        assert forall|i: int| 0 <= i < t.len() implies #[trigger] t[i] == row || rows.contains(
            t[i],
        ) by {
            if i >= 1 {
                assert(t[i] == rows[i - 1]);
            }
        }
    } else {
        let rest = rows.drop_first();
        let t2 = insert_sorted(rest, row);
        assert(forall|k: int| 0 <= k < rest.len() ==> rest[k] == rows[k + 1]);
        lemma_insert_sorted_wf(rest, row, bound);
        assert(t =~= seq![rows[0]] + t2);
        assert(t[0] == rows[0]);
        assert(forall|k: int| 1 <= k < t.len() ==> #[trigger] t[k] == t2[k - 1]);
        // the head precedes the fresh row, hence everything inserted after it
        lemma_row_order_total(rows[0], row);
        assert(row_before(rows[0], row));
        assert forall|k: int| 1 <= k < t.len() implies row_before(rows[0], #[trigger] t[k])
            && rows[0].stamp != t[k].stamp && rows[0].entry.id != t[k].entry.id by {
            let x = t2[k - 1];
            if x == row {
            } else {
                assert(rest.contains(x));
                let j = choose|j: int| 0 <= j < rest.len() && rest[j] == x;
                assert(x == rows[j + 1]);
            }
        }
        assert(t.contains(row)) by {
            let j = choose|j: int| 0 <= j < t2.len() && t2[j] == row;
            assert(t[j + 1] == row);
        }
        assert forall|i: int| 0 <= i < t.len() implies #[trigger] t[i] == row || rows.contains(
            t[i],
        ) by {
            if i >= 1 {
                let x = t2[i - 1];
                if x != row {
                    assert(rest.contains(x));
                    let j = choose|j: int| 0 <= j < rest.len() && rest[j] == x;
                    assert(rows[j + 1] == x);
                }
            } else {
                assert(rows.contains(rows[0]));
            }
        }
    }
}

/// An entry assembled from the given field values.
pub open spec fn made_entry(
    id: Seq<char>,
    name: Seq<char>,
    pct: int,
    vol: int,
    date: Seq<char>,
    notes: Seq<char>,
) -> EntryView {
    EntryView { id: id, name: name, alcohol_percentage: pct, volume_ml: vol, date: date, notes: notes }
}

/// A row assembled from an entry and a creation stamp.
pub open spec fn made_row(e: EntryView, stamp: nat) -> RowView {
    RowView { entry: e, stamp: stamp }
}

/// The row sequence after an upsert: any row carrying the entry's id is
/// gone, and a fresh row sits at its sorted position.
pub open spec fn upsert_rows(rows: Seq<RowView>, e: EntryView, stamp: nat) -> Seq<RowView> {
    insert_sorted(rows.filter(keep_other_ids(e.id)), made_row(e, stamp))
}

/// The row with its mutable quantities replaced; id, date and stamp stay.
pub open spec fn with_new_fields(
    r: RowView,
    name: Seq<char>,
    pct: int,
    vol: int,
    notes: Seq<char>,
) -> RowView {
    made_row(made_entry(r.entry.id, name, pct, vol, r.entry.date, notes), r.stamp)
}

/// The row carried to a new date; everything else stays.
pub open spec fn with_new_date(r: RowView, date: Seq<char>) -> RowView {
    made_row(
        made_entry(
            r.entry.id,
            r.entry.name,
            r.entry.alcohol_percentage,
            r.entry.volume_ml,
            date,
            r.entry.notes,
        ),
        r.stamp,
    )
}

/// Removing one row keeps every well-formedness component; the survivors
/// are the original rows with their order kept.
pub proof fn lemma_remove_wf_parts(rows: Seq<RowView>, i: int, bound: nat)
    requires
        0 <= i < rows.len(),
        rows_sorted(rows),
        rows_stamps_distinct(rows),
        rows_ids_distinct(rows),
        rows_all_valid(rows),
        rows_stamps_below(rows, bound),
    ensures
        rows.remove(i).len() == rows.len() - 1,
        forall|k: int| 0 <= k < i ==> #[trigger] rows.remove(i)[k] == rows[k],
        forall|k: int| i <= k < rows.len() - 1 ==> #[trigger] rows.remove(i)[k] == rows[k + 1],
        rows_sorted(rows.remove(i)),
        rows_stamps_distinct(rows.remove(i)),
        rows_ids_distinct(rows.remove(i)),
        rows_all_valid(rows.remove(i)),
        rows_stamps_below(rows.remove(i), bound),
        forall|k: int|
            0 <= k < rows.len() - 1 ==> (#[trigger] rows.remove(i)[k]).stamp != rows[i].stamp,
{
    rows.remove_ensures(i);
    let t = rows.remove(i);
    assert forall|a: int, b: int| 0 <= a < b < t.len() implies row_before(#[trigger] t[a], #[trigger] t[b])
        && t[a].stamp != t[b].stamp && t[a].entry.id != t[b].entry.id by {
        let a0: int = if a < i { a } else { a + 1 };
        let b0: int = if b < i { b } else { b + 1 };
        assert(t[a] == rows[a0]);
        assert(t[b] == rows[b0]);
    }
    assert forall|k: int| 0 <= k < t.len() implies valid_entry((#[trigger] t[k]).entry) && t[k].stamp
        < bound && t[k].stamp != rows[i].stamp by {
        let k0: int = if k < i { k } else { k + 1 };
        assert(t[k] == rows[k0]);
    }
}

/// Removing the one row that carries an id is the same as filtering that id
/// out.
pub proof fn lemma_remove_is_filter_id(rows: Seq<RowView>, i: int, id: Seq<char>)
    requires
        0 <= i < rows.len(),
        rows[i].entry.id == id,
        forall|k: int| 0 <= k < rows.len() && k != i ==> (#[trigger] rows[k]).entry.id != id,
    ensures
        rows.remove(i) == rows.filter(keep_other_ids(id)),
    decreases rows.len(),
{
    let p = keep_other_ids(id);
    assert(rows =~= rows.drop_last().push(rows.last()));
    lemma_filter_push(rows.drop_last(), rows.last(), p);
    if i == rows.len() - 1 {
        assert(!p(rows.last()));
        lemma_filter_all(rows.drop_last(), p);
        assert(rows.remove(i) =~= rows.drop_last());
    } else {
        assert(p(rows.last()));
        lemma_remove_is_filter_id(rows.drop_last(), i, id);
        assert(rows.remove(i) =~= rows.drop_last().remove(i).push(rows.last()));
    }
}

/// The image of a row vector with one row removed.
pub(crate) proof fn lemma_rows_view_remove(s: Seq<Row>, i: int)
    requires
        0 <= i < s.len(),
    ensures
        rows_view(s.remove(i)) == rows_view(s).remove(i),
{
    s.remove_ensures(i);
    rows_view(s).remove_ensures(i);
    assert(rows_view(s.remove(i)) =~= rows_view(s).remove(i));
}

/// The store: the rows in query order, at most one goal, and the next free
/// creation stamp.
pub struct BrewLog {
    rows: Vec<Row>,
    goal: Option<ConsumptionGoal>,
    next_stamp: u64,
}

impl View for BrewLog {
    type V = LogView;

    closed spec fn view(&self) -> LogView {
        LogView {
            rows: rows_view(self.rows@),
            goal: match self.goal {
                Some(g) => Some(g@),
                None => None,
            },
            next_stamp: self.next_stamp as nat,
        }
    }
}

/// Decides the row order on concrete rows.
fn row_before_exec(a: &Row, b: &Row) -> (r: bool)
    ensures
        r == row_before(a@, b@),
{
    if crate::lex::str_lt(b.entry.date.as_str(), a.entry.date.as_str()) {
        true
    } else {
        a.entry.date == b.entry.date && a.stamp > b.stamp
    }
}

/// The first position whose row the fresh row precedes, or the length if
/// there is none.
fn find_insert_pos(rows: &Vec<Row>, row: &Row) -> (i: usize)
    ensures
        i <= rows@.len(),
        forall|k: int| 0 <= k < i ==> !row_before(row@, #[trigger] rows_view(rows@)[k]),
        i < rows@.len() ==> row_before(row@, rows_view(rows@)[i as int]),
{
    let n = rows.len();
    let mut i: usize = 0;
    while i < n
        invariant
            i <= n,
            n == rows@.len(),
            forall|k: int| 0 <= k < i ==> !row_before(row@, #[trigger] rows_view(rows@)[k]),
        decreases n - i,
    {
        if row_before_exec(row, &rows[i]) {
            return i;
        }
        i = i + 1;
    }
    i
}

/// Inserts a row at its sorted position.
fn insert_row(rows: &mut Vec<Row>, row: Row)
    ensures
        rows_view(final(rows)@) == insert_sorted(rows_view(old(rows)@), row@),
{
    let ghost rv = rows_view(rows@);
    let ghost rowv = row@;
    let i = find_insert_pos(rows, &row);
    rows.insert(i, row);
    proof {
        lemma_insert_sorted_at(rv, rowv, i as int);
        assert(rows_view(rows@) =~= rv.insert(i as int, rowv));
    }
}

/// The position of the row carrying the given id, if any.
fn find_by_id(rows: &Vec<Row>, id: &String) -> (r: Option<usize>)
    ensures
        r matches Some(i) ==> 0 <= i < rows@.len() && rows_view(rows@)[i as int].entry.id == id@,
        r is None ==> !seq_has_id(rows_view(rows@), id@),
{
    let n = rows.len();
    let mut i: usize = 0;
    while i < n
        invariant
            i <= n,
            n == rows@.len(),
            forall|k: int| 0 <= k < i ==> (#[trigger] rows_view(rows@)[k]).entry.id != id@,
        decreases n - i,
    {
        if rows[i].entry.id == *id {
            proof {
                assert(rows_view(rows@)[i as int] == rows@[i as int]@);
            }
            return Some(i);
        }
        proof {
            assert(rows_view(rows@)[i as int] == rows@[i as int]@);
        }
        i = i + 1;
    }
    None
}

/// The `NotFound` detail for a missing entry id.
fn missing_entry_msg(id: &String) -> String {
    String::from_str("Beer entry with id ").concat(id.as_str()).concat(" not found")
}

impl BrewLog {
    /// Opens a fresh, empty store.
    pub fn new() -> (result: Result<BrewLog, BrewLogError>)
        ensures
            result matches Ok(log) && log@.wf() && log@.rows.len() == 0 && log@.goal is None
                && log@.next_stamp == 0,
    {
        let log = BrewLog { rows: Vec::new(), goal: None, next_stamp: 0 };
        proof {
            assert(rows_view(log.rows@) =~= Seq::<RowView>::empty());
        }
        Ok(log)
    }

    /// Returns every entry whose date lies in the closed interval
    /// `[start_date, end_date]`, ordered by date descending with ties broken
    /// by creation descending; an empty match is an empty vector, never an
    /// error.
    pub fn get_beer_entries(&self, start_date: String, end_date: String) -> (result: Result<
        Vec<BeerEntry>,
        BrewLogError,
    >)
        requires
            self@.wf(),
        ensures
            result matches Ok(v) && entries_view(v@) == spec_get(self@, start_date@, end_date@),
            result matches Ok(v) ==> forall|i: int|
                0 <= i < v@.len() ==> valid_entry((#[trigger] v@[i])@),
    {
        let ghost rv = self@.rows;
        let ghost p = range_pred(start_date@, end_date@);
        let mut out: Vec<BeerEntry> = Vec::new();
        let mut i: usize = 0;
        proof {
            assert(rv.take(0) =~= Seq::<RowView>::empty());
            assert(entries_view(out@) =~= rows_entries(rv.take(0).filter(p)));
        }
        while i < self.rows.len()
            invariant
                i <= self.rows@.len(),
                rv == rows_view(self.rows@),
                p == range_pred(start_date@, end_date@),
                entries_view(out@) == rows_entries(rv.take(i as int).filter(p)),
                forall|k: int| 0 <= k < out@.len() ==> valid_entry((#[trigger] out@[k])@),
                self@.wf(),
            decreases self.rows@.len() - i,
        {
            let row = &self.rows[i];
            let ghost out_pre = out@;
            proof {
                assert(rv[i as int] == row@);
                assert(rv.take(i + 1) =~= rv.take(i as int).push(rv[i as int]));
                lemma_filter_push(rv.take(i as int), rv[i as int], p);
            }
            let keep = str_le(start_date.as_str(), row.entry.date.as_str()) && str_le(
                row.entry.date.as_str(),
                end_date.as_str(),
            );
            proof {
                assert(keep == p(rv[i as int]));
            }
            if keep {
                out.push(row.entry.clone());
                proof {
                    let fpre = rv.take(i as int).filter(p);
                    let fall = rv.take(i + 1).filter(p);
                    assert(out@ == out_pre.push(row.entry));
                    assert(fall == fpre.push(rv[i as int]));
                    assert(out_pre.len() == fpre.len()) by {
                        assert(entries_view(out_pre).len() == out_pre.len());
                        assert(rows_entries(fpre).len() == fpre.len());
                    }
                    assert forall|k: int|
                        0 <= k < out@.len() implies entries_view(out@)[k] == rows_entries(
                        fall,
                    )[k] by {
                        assert(entries_view(out@)[k] == out@[k]@);
                        assert(rows_entries(fall)[k] == fall[k].entry);
                        if k < out_pre.len() {
                            assert(out@[k] == out_pre[k]);
                            assert(fall[k] == fpre[k]);
                            assert(entries_view(out_pre)[k] == out_pre[k]@);
                            assert(rows_entries(fpre)[k] == fpre[k].entry);
                        } else {
                            assert(out@[k] == row.entry);
                            assert(fall[k] == rv[i as int]);
                        }
                    }
                    assert(entries_view(out@).len() == rows_entries(fall).len());
                    assert(entries_view(out@) =~= rows_entries(fall));
                }
            } else {
                proof {
                    assert(rv.take(i + 1).filter(p) == rv.take(i as int).filter(p));
                    assert(entries_view(out@) == rows_entries(rv.take(i + 1).filter(p)));
                }
            }
            i = i + 1;
        }
        proof {
            assert(rv.take(rv.len() as int) =~= rv);
        }
        Ok(out)
    }

    /// Returns every entry, in stored order (date descending, ties broken by
    /// creation descending).
    pub fn get_all_entries(&self) -> (result: Vec<BeerEntry>)
        requires
            self@.wf(),
        ensures
            entries_view(result@) == rows_entries(self@.rows),
            forall|i: int| 0 <= i < result@.len() ==> valid_entry((#[trigger] result@[i])@),
    {
        let ghost rv = self@.rows;
        let mut out: Vec<BeerEntry> = Vec::new();
        let mut i: usize = 0;
        proof {
            assert(entries_view(out@) =~= rows_entries(rv.take(0)));
        }
        while i < self.rows.len()
            invariant
                i <= self.rows@.len(),
                rv == rows_view(self.rows@),
                entries_view(out@) == rows_entries(rv.take(i as int)),
                forall|k: int| 0 <= k < out@.len() ==> valid_entry((#[trigger] out@[k])@),
                self@.wf(),
            decreases self.rows@.len() - i,
        {
            let row = &self.rows[i];
            let ghost out_pre = out@;
            out.push(row.entry.clone());
            proof {
                assert(rv[i as int] == row@);
                assert(rv.take(i + 1) =~= rv.take(i as int).push(rv[i as int]));
                assert(out@ == out_pre.push(row.entry));
                assert(entries_view(out_pre).len() == out_pre.len());
                assert(rows_entries(rv.take(i as int)).len() == i as int);
                assert(out_pre.len() == i as int);
                assert(entries_view(out@) =~= rows_entries(rv.take(i + 1))) by {
                    assert forall|k: int|
                        0 <= k < out@.len() implies entries_view(out@)[k] == rows_entries(
                        rv.take(i + 1),
                    )[k] by {
                        if k < out_pre.len() {
                            assert(out@[k] == out_pre[k]);
                            assert(entries_view(out_pre)[k] == out_pre[k]@);
                            assert(rows_entries(rv.take(i as int))[k] == rv.take(i as int)[k].entry);
                            assert(rv.take(i + 1)[k] == rv.take(i as int)[k]);
                        } else {
                            assert(out@[k] == row.entry);
                            assert(rv.take(i + 1)[k] == rv[i as int]);
                        }
                    }
                }
            }
            i = i + 1;
        }
        proof {
            assert(rv.take(rv.len() as int) =~= rv);
        }
        out
    }

    /// Inserts a validated entry dated today under a fresh identifier.
    /// Validation failures persist nothing; a clash of the drawn identifier
    /// with an existing row is a storage failure, not an upsert.
    pub fn add_beer_entry(
        &mut self,
        name: String,
        alcohol_percentage: i64,
        volume_ml: i64,
        notes: String,
    ) -> (result: Result<(), BrewLogError>)
        requires
            old(self)@.wf(),
        ensures
            final(self)@.wf(),
            final(self)@.goal == old(self)@.goal,
            result is Err ==> *final(self) == *old(self),
            (result matches Err(e) && e is InvalidInput) <==> !valid_fields(
                name@,
                alcohol_percentage as int,
                volume_ml as int,
            ),
            result matches Err(e) ==> e is InvalidInput || e is DatabaseError,
            (result matches Err(e) && e is DatabaseError) ==> (old(self)@.next_stamp
                == u64::MAX as nat || old(self)@.rows.len() > 0),
            result is Ok ==> final(self)@.next_stamp == old(self)@.next_stamp + 1,
            result is Ok ==> exists|f: Seq<char>, d: Seq<char>|
                !seq_has_id(old(self)@.rows, f) && final(self)@.rows == insert_sorted(
                    old(self)@.rows,
                    made_row(
                        made_entry(
                            f,
                            name@,
                            alcohol_percentage as int,
                            volume_ml as int,
                            d,
                            notes@,
                        ),
                        old(self)@.next_stamp,
                    ),
                ),
    {
        if let Some(err) = check_entry_fields(&name, alcohol_percentage, volume_ml) {
            return Err(err);
        }
        if self.next_stamp == u64::MAX {
            return Err(
                BrewLogError::DatabaseError(String::from_str("creation stamps exhausted")),
            );
        }
        let ghost pre = self@;
        let idv = fresh_id();
        if let Some(_clash) = find_by_id(&self.rows, &idv) {
            return Err(
                BrewLogError::DatabaseError(String::from_str("generated id already present")),
            );
        }
        let ghost idq = idv@;
        let today = today_date();
        let ghost dateq = today@;
        let row = Row {
            entry: BeerEntry {
                id: idv,
                name: name,
                alcohol_percentage: alcohol_percentage,
                volume_ml: volume_ml,
                date: today,
                notes: notes,
            },
            stamp: self.next_stamp,
        };
        proof {
            assert forall|k: int| 0 <= k < pre.rows.len() implies (#[trigger] pre.rows[k]).stamp
                != row@.stamp && pre.rows[k].entry.id != row@.entry.id
                && pre.rows[k].stamp < pre.next_stamp + 1 by {}
            lemma_insert_sorted_wf(pre.rows, row@, (pre.next_stamp + 1) as nat);
        }
        insert_row(&mut self.rows, row);
        self.next_stamp = self.next_stamp + 1;
        proof {
            assert(final(self)@.rows == insert_sorted(
                pre.rows,
                made_row(
                    made_entry(
                        idq,
                        name@,
                        alcohol_percentage as int,
                        volume_ml as int,
                        dateq,
                        notes@,
                    ),
                    pre.next_stamp,
                ),
            ));
        }
        Ok(())
    }

    /// Inserts an entry with a caller-supplied date and, optionally, a
    /// caller-supplied identifier: an upsert that fully replaces any
    /// existing row under that identifier (re-stamping its creation order)
    /// or creates a new row. With the identifier omitted a fresh one is
    /// drawn; a clash of the drawn identifier with an existing row is a
    /// storage failure, never a replacement. Validation failures persist
    /// nothing.
    pub fn add_beer_entry_full(
        &mut self,
        id: Option<String>,
        name: String,
        alcohol_percentage: i64,
        volume_ml: i64,
        date: String,
        notes: String,
    ) -> (result: Result<(), BrewLogError>)
        requires
            old(self)@.wf(),
        ensures
            final(self)@.wf(),
            final(self)@.goal == old(self)@.goal,
            result is Err ==> *final(self) == *old(self),
            (result matches Err(e) && e is InvalidInput) <==> !valid_fields(
                name@,
                alcohol_percentage as int,
                volume_ml as int,
            ),
            result is Ok ==> (valid_fields(name@, alcohol_percentage as int, volume_ml as int)
                && old(self)@.next_stamp < u64::MAX as nat),
            (valid_fields(name@, alcohol_percentage as int, volume_ml as int) && old(self)@.next_stamp
                < u64::MAX as nat && id is Some) ==> result is Ok,
            result matches Err(e) ==> e is InvalidInput || e is DatabaseError,
            (result matches Err(e) && e is DatabaseError) ==> (old(self)@.next_stamp
                == u64::MAX as nat || (id is None && old(self)@.rows.len() > 0)),
            result is Ok ==> final(self)@.next_stamp == old(self)@.next_stamp + 1,
            result is Ok ==> (match id {
                Some(s) => final(self)@.rows == upsert_rows(
                    old(self)@.rows,
                    made_entry(
                        s@,
                        name@,
                        alcohol_percentage as int,
                        volume_ml as int,
                        date@,
                        notes@,
                    ),
                    old(self)@.next_stamp,
                ),
                None => exists|f: Seq<char>|
                    !seq_has_id(old(self)@.rows, f) && final(self)@.rows == upsert_rows(
                        old(self)@.rows,
                        made_entry(
                            f,
                            name@,
                            alcohol_percentage as int,
                            volume_ml as int,
                            date@,
                            notes@,
                        ),
                        old(self)@.next_stamp,
                    ),
            }),
    {
        if let Some(err) = check_entry_fields(&name, alcohol_percentage, volume_ml) {
            return Err(err);
        }
        if self.next_stamp == u64::MAX {
            return Err(
                BrewLogError::DatabaseError(String::from_str("creation stamps exhausted")),
            );
        }
        let ghost pre = self@;
        let idv = match id {
            Some(s) => s,
            None => {
                let f = fresh_id();
                if let Some(_clash) = find_by_id(&self.rows, &f) {
                    return Err(
                        BrewLogError::DatabaseError(
                            String::from_str("generated id already present"),
                        ),
                    );
                }
                f
            },
        };
        let ghost idq = idv@;
        let ghost keep = keep_other_ids(idq);
        match find_by_id(&self.rows, &idv) {
            Some(i) => {
                let ghost vecpre = self.rows@;
                proof {
                    assert forall|k: int|
                        0 <= k < pre.rows.len() && k != i as int implies (
                        #[trigger] pre.rows[k]).entry.id != idq by {
                        if k < i as int {
                            assert(pre.rows[k].entry.id != pre.rows[i as int].entry.id);
                        } else {
                            assert(pre.rows[i as int].entry.id != pre.rows[k].entry.id);
                        }
                    }
                    lemma_remove_is_filter_id(pre.rows, i as int, idq);
                    lemma_remove_wf_parts(pre.rows, i as int, pre.next_stamp);
                    lemma_rows_view_remove(vecpre, i as int);
                }
                let _removed = self.rows.remove(i);
                proof {
                    assert forall|k: int|
                        0 <= k < pre.rows.filter(keep).len() implies (#[trigger] pre.rows.filter(
                        keep,
                    )[k]).entry.id != idq by {
                        let t = pre.rows.remove(i as int);
                        let k0: int = if k < i as int {
                            k
                        } else {
                            k + 1
                        };
                        assert(t[k] == pre.rows[k0]);
                    }
                }
            }
            None => {
                proof {
                    assert forall|k: int| 0 <= k < pre.rows.len() implies keep(
                        #[trigger] pre.rows[k]) by {}
                    lemma_filter_all(pre.rows, keep);
                }
            }
        }
        let row = Row {
            entry: BeerEntry {
                id: idv,
                name: name,
                alcohol_percentage: alcohol_percentage,
                volume_ml: volume_ml,
                date: date,
                notes: notes,
            },
            stamp: self.next_stamp,
        };
        proof {
            let filtered = pre.rows.filter(keep);
            assert(rows_view(self.rows@) == filtered);
            assert forall|k: int| 0 <= k < filtered.len() implies (#[trigger] filtered[k]).stamp
                != row@.stamp && filtered[k].stamp < pre.next_stamp + 1 by {}
            lemma_insert_sorted_wf(filtered, row@, (pre.next_stamp + 1) as nat);
        }
        insert_row(&mut self.rows, row);
        self.next_stamp = self.next_stamp + 1;
        proof {
            let e = made_entry(
                idq,
                name@,
                alcohol_percentage as int,
                volume_ml as int,
                date@,
                notes@,
            );
            assert(final(self)@.rows == upsert_rows(pre.rows, e, pre.next_stamp));
        }
        Ok(())
    }

    /// Replaces the mutable quantities of the entry carrying the given id;
    /// its date and creation order stay untouched.
    pub fn update_beer_entry(
        &mut self,
        id: String,
        name: String,
        alcohol_percentage: i64,
        volume_ml: i64,
        notes: String,
    ) -> (result: Result<(), BrewLogError>)
        requires
            old(self)@.wf(),
        ensures
            final(self)@.wf(),
            final(self)@.goal == old(self)@.goal,
            final(self)@.next_stamp == old(self)@.next_stamp,
            result is Err ==> *final(self) == *old(self),
            (result matches Err(e) && e is InvalidInput) <==> !valid_fields(
                name@,
                alcohol_percentage as int,
                volume_ml as int,
            ),
            (result matches Err(e) && e is NotFound) <==> (valid_fields(
                name@,
                alcohol_percentage as int,
                volume_ml as int,
            ) && !old(self)@.has_id(id@)),
            result is Ok <==> (valid_fields(name@, alcohol_percentage as int, volume_ml as int)
                && old(self)@.has_id(id@)),
            result is Ok ==> final(self)@.rows.len() == old(self)@.rows.len() && (forall|k: int|
                0 <= k < old(self)@.rows.len() ==> #[trigger] final(self)@.rows[k] == (
                if old(self)@.rows[k].entry.id == id@ {
                    with_new_fields(
                        old(self)@.rows[k],
                        name@,
                        alcohol_percentage as int,
                        volume_ml as int,
                        notes@,
                    )
                } else {
                    old(self)@.rows[k]
                })),
    {
        if let Some(err) = check_entry_fields(&name, alcohol_percentage, volume_ml) {
            return Err(err);
        }
        let ghost pre = self@;
        match find_by_id(&self.rows, &id) {
            None => Err(BrewLogError::NotFound(missing_entry_msg(&id))),
            Some(i) => {
                let ghost vecpre = self.rows@;
                let mut row = self.rows.remove(i);
                row.entry.name = name;
                row.entry.alcohol_percentage = alcohol_percentage;
                row.entry.volume_ml = volume_ml;
                row.entry.notes = notes;
                let ghost rownew = row@;
                self.rows.insert(i, row);
                proof {
                    vecpre.remove_ensures(i as int);
                    assert(self.rows@ =~= vecpre.update(i as int, self.rows@[i as int]));
                    let t = rows_view(self.rows@);
                    assert(t =~= pre.rows.update(i as int, rownew));
                    assert(rownew == with_new_fields(
                        pre.rows[i as int],
                        name@,
                        alcohol_percentage as int,
                        volume_ml as int,
                        notes@,
                    ));
                    assert forall|k: int|
                        0 <= k < pre.rows.len() && k != i as int implies (
                        #[trigger] pre.rows[k]).entry.id != id@ by {
                        if k < i as int {
                            assert(pre.rows[k].entry.id != pre.rows[i as int].entry.id);
                        } else {
                            assert(pre.rows[i as int].entry.id != pre.rows[k].entry.id);
                        }
                    }
                    assert forall|a: int, b: int| 0 <= a < b < t.len() implies row_before(
                        #[trigger] t[a],
                        #[trigger] t[b],
                    ) && t[a].stamp != t[b].stamp && t[a].entry.id != t[b].entry.id by {
                        assert(t[a].entry.date == pre.rows[a].entry.date);
                        assert(t[a].stamp == pre.rows[a].stamp);
                        assert(t[a].entry.id == pre.rows[a].entry.id);
                        assert(t[b].entry.date == pre.rows[b].entry.date);
                        assert(t[b].stamp == pre.rows[b].stamp);
                        assert(t[b].entry.id == pre.rows[b].entry.id);
                        assert(row_before(pre.rows[a], pre.rows[b]));
                    }
                }
                Ok(())
            }
        }
    }

    /// Moves the entry carrying the given id to a new date; every other
    /// field, and its creation order, stays.
    pub fn update_beer_entry_date(&mut self, id: String, date: String) -> (result: Result<
        (),
        BrewLogError,
    >)
        requires
            old(self)@.wf(),
        ensures
            final(self)@.wf(),
            final(self)@.goal == old(self)@.goal,
            final(self)@.next_stamp == old(self)@.next_stamp,
            result is Ok <==> old(self)@.has_id(id@),
            result matches Err(e) ==> e is NotFound && *final(self) == *old(self),
            result is Ok ==> exists|k: int|
                0 <= k < old(self)@.rows.len() && (#[trigger] old(self)@.rows[k]).entry.id == id@
                    && final(self)@.rows == insert_sorted(
                    old(self)@.rows.remove(k),
                    with_new_date(old(self)@.rows[k], date@),
                ),
    {
        let ghost pre = self@;
        match find_by_id(&self.rows, &id) {
            None => Err(BrewLogError::NotFound(missing_entry_msg(&id))),
            Some(i) => {
                let ghost vecpre = self.rows@;
                let mut row = self.rows.remove(i);
                row.entry.date = date;
                let ghost rownew = row@;
                proof {
                    lemma_rows_view_remove(vecpre, i as int);
                    lemma_remove_wf_parts(pre.rows, i as int, pre.next_stamp);
                    let t = pre.rows.remove(i as int);
                    assert(rownew == with_new_date(pre.rows[i as int], date@));
                    assert forall|k: int| 0 <= k < t.len() implies (#[trigger] t[k]).entry.id
                        != rownew.entry.id by {
                        let k0: int = if k < i as int {
                            k
                        } else {
                            k + 1
                        };
                        assert(t[k] == pre.rows[k0]);
                        if k0 < i as int {
                            assert(pre.rows[k0].entry.id != pre.rows[i as int].entry.id);
                        } else {
                            assert(pre.rows[i as int].entry.id != pre.rows[k0].entry.id);
                        }
                    }
                    lemma_insert_sorted_wf(t, rownew, pre.next_stamp);
                }
                insert_row(&mut self.rows, row);
                proof {
                    assert(final(self)@.rows == insert_sorted(
                        pre.rows.remove(i as int),
                        with_new_date(pre.rows[i as int], date@),
                    ));
                }
                Ok(())
            }
        }
    }

    /// Removes the entry carrying the given id.
    pub fn delete_beer_entry(&mut self, id: String) -> (result: Result<(), BrewLogError>)
        requires
            old(self)@.wf(),
        ensures
            final(self)@.wf(),
            final(self)@.goal == old(self)@.goal,
            final(self)@.next_stamp == old(self)@.next_stamp,
            result is Ok <==> old(self)@.has_id(id@),
            result matches Err(e) ==> e is NotFound && *final(self) == *old(self),
            result is Ok ==> final(self)@.rows == old(self)@.rows.filter(keep_other_ids(id@)),
    {
        let ghost pre = self@;
        match find_by_id(&self.rows, &id) {
            None => Err(BrewLogError::NotFound(missing_entry_msg(&id))),
            Some(i) => {
                let ghost vecpre = self.rows@;
                proof {
                    assert forall|k: int|
                        0 <= k < pre.rows.len() && k != i as int implies (
                        #[trigger] pre.rows[k]).entry.id != id@ by {
                        if k < i as int {
                            assert(pre.rows[k].entry.id != pre.rows[i as int].entry.id);
                        } else {
                            assert(pre.rows[i as int].entry.id != pre.rows[k].entry.id);
                        }
                    }
                    lemma_remove_is_filter_id(pre.rows, i as int, id@);
                    lemma_remove_wf_parts(pre.rows, i as int, pre.next_stamp);
                    lemma_rows_view_remove(vecpre, i as int);
                }
                let _removed = self.rows.remove(i);
                Ok(())
            }
        }
    }

    /// Removes every entry and the goal: a full, irreversible reset.
    pub fn clear_all_data(&mut self) -> (result: Result<(), BrewLogError>)
        requires
            old(self)@.wf(),
        ensures
            result is Ok,
            final(self)@.wf(),
            final(self)@.rows.len() == 0,
            final(self)@.goal is None,
    {
        self.rows = Vec::new();
        self.goal = None;
        proof {
            assert(rows_view(self.rows@) =~= Seq::<RowView>::empty());
        }
        Ok(())
    }

    /// Replaces the current goal wholesale: the previous goal, if any, is
    /// discarded and exactly one new goal remains. Negative targets are
    /// rejected and change nothing.
    pub fn set_consumption_goal(
        &mut self,
        daily_target: i64,
        weekly_target: i64,
        start_date: String,
        end_date: String,
    ) -> (result: Result<(), BrewLogError>)
        requires
            old(self)@.wf(),
        ensures
            final(self)@.wf(),
            final(self)@.rows == old(self)@.rows,
            final(self)@.next_stamp == old(self)@.next_stamp,
            result is Err ==> *final(self) == *old(self),
            (result is Err) <==> (daily_target < 0 || weekly_target < 0),
            result matches Err(e) ==> e is InvalidInput,
            result is Ok ==> (final(self)@.goal matches Some(g) && g.daily_target
                == daily_target as int && g.weekly_target == weekly_target as int && g.start_date
                == start_date@ && g.end_date == end_date@),
    {
        if daily_target < 0 {
            return Err(
                BrewLogError::InvalidInput(String::from_str("Daily target must be non-negative")),
            );
        }
        if weekly_target < 0 {
            return Err(
                BrewLogError::InvalidInput(String::from_str("Weekly target must be non-negative")),
            );
        }
        let idv = fresh_id();
        self.goal = Some(
            ConsumptionGoal {
                id: idv,
                daily_target: daily_target,
                weekly_target: weekly_target,
                start_date: start_date,
                end_date: end_date,
            },
        );
        Ok(())
    }

    /// Returns the current goal, or `NotFound` when none is set.
    pub fn get_current_goal(&self) -> (result: Result<ConsumptionGoal, BrewLogError>)
        requires
            self@.wf(),
        ensures
            self@.goal matches Some(g) ==> (result matches Ok(c) && c@ == g),
            self@.goal is None ==> (result matches Err(e) && e is NotFound),
    {
        match &self.goal {
            Some(g) => Ok(g.clone()),
            None => Err(BrewLogError::NotFound(String::from_str("No consumption goal is set"))),
        }
    }
}

} // verus!
