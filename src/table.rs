use crate::format::{cpu_text, format_cpu, format_memory, memory_text};
use crate::quantity::ResourceValue;
use crate::resource::wrap;
use vstd::prelude::*;
use vstd::utf8::encode_utf8;

verus! {

/// The entity kind that the table shows.
#[derive(Debug, Clone, Copy, PartialEq, Eq)]
pub enum ViewMode {
    Node,
    Pod,
    Namespace,
}

/// How many identity (text) columns a row of `kind` starts with.
pub open spec fn label_count(kind: ViewMode) -> nat {
    match kind {
        ViewMode::Node => 1,
        ViewMode::Pod => 4,
        ViewMode::Namespace => 1,
    }
}

/// How many resource (numeric) columns follow the identity columns.
pub open spec fn value_count(kind: ViewMode) -> nat {
    match kind {
        ViewMode::Node => 6,
        ViewMode::Pod => 4,
        ViewMode::Namespace => 4,
    }
}

pub fn label_count_of(kind: ViewMode) -> (r: usize)
    ensures
        r == label_count(kind),
{
    match kind {
        ViewMode::Node => 1,
        ViewMode::Pod => 4,
        ViewMode::Namespace => 1,
    }
}

pub fn value_count_of(kind: ViewMode) -> (r: usize)
    ensures
        r == value_count(kind),
{
    match kind {
        ViewMode::Node => 6,
        ViewMode::Pod => 4,
        ViewMode::Namespace => 4,
    }
}

/// One data row before formatting: its identity columns as text and its
/// resource columns as normalized amounts.
pub struct Row {
    pub labels: Vec<String>,
    pub values: Vec<i64>,
}

/// What a row holds: its identity texts and its amounts.
pub type RowModel = (Seq<Seq<char>>, Seq<i64>);

impl View for Row {
    type V = RowModel;

    open spec fn view(&self) -> RowModel {
        (self.labels@.map_values(|s: String| s@), self.values@)
    }
}

pub open spec fn rows_view(rows: Seq<Row>) -> Seq<RowModel> {
    rows.map_values(|r: Row| r@)
}

/// A row has the columns of `kind`.
pub open spec fn row_fits(kind: ViewMode, m: RowModel) -> bool {
    m.0.len() == label_count(kind) && m.1.len() == value_count(kind)
}

pub open spec fn rows_fit(kind: ViewMode, rows: Seq<RowModel>) -> bool {
    forall|i: int| 0 <= i < rows.len() ==> row_fits(kind, #[trigger] rows[i])
}

/// Byte-wise lexicographic order, the order of `String`'s `Ord`.
pub open spec fn bytes_le(a: Seq<u8>, b: Seq<u8>) -> bool
    decreases a.len(),
{
    if a.len() == 0 {
        true
    } else if b.len() == 0 {
        false
    } else if a[0] != b[0] {
        a[0] < b[0]
    } else {
        bytes_le(a.drop_first(), b.drop_first())
    }
}

/// `a` sorts no later than `b` as text: compared by their UTF-8 bytes.
pub open spec fn text_le(a: Seq<char>, b: Seq<char>) -> bool {
    bytes_le(encode_utf8(a), encode_utf8(b))
}

proof fn lemma_bytes_le_total(a: Seq<u8>, b: Seq<u8>)
    ensures
        bytes_le(a, b) || bytes_le(b, a),
    decreases a.len(),
{
    if a.len() > 0 && b.len() > 0 && a[0] == b[0] {
        lemma_bytes_le_total(a.drop_first(), b.drop_first());
    }
}

proof fn lemma_bytes_le_transitive(a: Seq<u8>, b: Seq<u8>, c: Seq<u8>)
    requires
        bytes_le(a, b),
        bytes_le(b, c),
    ensures
        bytes_le(a, c),
    decreases a.len(),
{
    if a.len() > 0 && a[0] == b[0] && b[0] == c[0] {
        lemma_bytes_le_transitive(a.drop_first(), b.drop_first(), c.drop_first());
    }
}

/// Whether `a` may stand before `b` in a table sorted by `column` (with
/// `labels` identity columns): identity columns ascend as text, resource
/// columns descend, and a column past the last leaves any order allowed.
pub open spec fn precedes(a: RowModel, b: RowModel, column: int, labels: int) -> bool {
    if column < labels {
        text_le(a.0[column], b.0[column])
    } else if column - labels < a.1.len() {
        a.1[column - labels] >= b.1[column - labels]
    } else {
        true
    }
}

/// Every row may stand before every later one.
pub open spec fn sorted_by(rows: Seq<RowModel>, column: int, labels: int) -> bool {
    forall|i: int, j: int|
        0 <= i < j < rows.len() ==> precedes(#[trigger] rows[i], #[trigger] rows[j], column, labels)
}

proof fn lemma_precedes_total(kind: ViewMode, a: RowModel, b: RowModel, column: int)
    requires
        row_fits(kind, a),
        row_fits(kind, b),
    ensures
        precedes(a, b, column, label_count(kind) as int) || precedes(
            b,
            a,
            column,
            label_count(kind) as int,
        ),
{
    if column < label_count(kind) {
        lemma_bytes_le_total(encode_utf8(a.0[column]), encode_utf8(b.0[column]));
    }
}

proof fn lemma_precedes_transitive(
    kind: ViewMode,
    a: RowModel,
    b: RowModel,
    c: RowModel,
    column: int,
)
    requires
        row_fits(kind, a),
        row_fits(kind, b),
        row_fits(kind, c),
        precedes(a, b, column, label_count(kind) as int),
        precedes(b, c, column, label_count(kind) as int),
    ensures
        precedes(a, c, column, label_count(kind) as int),
{
    if column < label_count(kind) {
        lemma_bytes_le_transitive(
            encode_utf8(a.0[column]),
            encode_utf8(b.0[column]),
            encode_utf8(c.0[column]),
        );
    }
}

fn text_le_exec(a: &String, b: &String) -> (r: bool)
    ensures
        r == text_le(a@, b@),
{
    let x = a.as_str().as_bytes();
    let y = b.as_str().as_bytes();
    let ghost xs = x@;
    let ghost ys = y@;
    assert(xs == encode_utf8(a@));
    assert(ys == encode_utf8(b@));
    let mut i: usize = 0;
    assert(xs.subrange(0, xs.len() as int) =~= xs);
    assert(ys.subrange(0, ys.len() as int) =~= ys);
    while i < x.len() && i < y.len()
        invariant
            x@ == xs,
            y@ == ys,
            xs == encode_utf8(a@),
            ys == encode_utf8(b@),
            i <= xs.len(),
            i <= ys.len(),
            bytes_le(xs, ys) == bytes_le(
                xs.subrange(i as int, xs.len() as int),
                ys.subrange(i as int, ys.len() as int),
            ),
        decreases x.len() - i,
    {
        let ghost xr = xs.subrange(i as int, xs.len() as int);
        let ghost yr = ys.subrange(i as int, ys.len() as int);
        assert(xr[0] == xs[i as int] && yr[0] == ys[i as int]);
        assert(xr.len() > 0 && yr.len() > 0);
        if x[i] != y[i] {
            assert(x[i as int] == xs[i as int] && y[i as int] == ys[i as int]);
            assert(bytes_le(xr, yr) == (xr[0] < yr[0]));
            return x[i] < y[i];
        }
        assert(xr.drop_first() =~= xs.subrange(i + 1, xs.len() as int));
        assert(yr.drop_first() =~= ys.subrange(i + 1, ys.len() as int));
        i = i + 1;
    }
    i == x.len()
}

fn row_precedes(a: &Row, b: &Row, column: usize, labels: usize) -> (r: bool)
    requires
        column < labels ==> column < a@.0.len() && column < b@.0.len(),
        a@.1.len() == b@.1.len(),
    ensures
        r == precedes(a@, b@, column as int, labels as int),
{
    if column < labels {
        text_le_exec(&a.labels[column], &b.labels[column])
    } else if column - labels < a.values.len() {
        a.values[column - labels] >= b.values[column - labels]
    } else {
        true
    }
}

proof fn lemma_insert_to_multiset<A>(s: Seq<A>, p: int, x: A)
    requires
        0 <= p <= s.len(),
    ensures
        s.insert(p, x).to_multiset() =~= s.to_multiset().insert(x),
{
    broadcast use vstd::seq_lib::group_to_multiset_ensures;

    let t = s.insert(p, x);
    assert(t.remove(p) =~= s);
    assert(t[p] == x);
    assert(t.to_multiset().count(x) > 0) by {
        assert(t.contains(x));
    }
}

/// Two rows have the same sort key under `column`.
pub open spec fn same_key(a: RowModel, b: RowModel, column: int, labels: int) -> bool {
    precedes(a, b, column, labels) && precedes(b, a, column, labels)
}

/// The rows whose sort key under `column` is that of `x`, in their order.
pub open spec fn key_class(rows: Seq<RowModel>, x: RowModel, column: int, labels: int) -> Seq<
    RowModel,
> {
    rows.filter(|m: RowModel| same_key(m, x, column, labels))
}

proof fn lemma_filter_single<A>(r: A, pred: spec_fn(A) -> bool)
    ensures
        seq![r].filter(pred) == if pred(r) {
            seq![r]
        } else {
            Seq::<A>::empty()
        },
{
    reveal_with_fuel(Seq::filter, 2);
    assert(seq![r].drop_last() =~= Seq::<A>::empty());
    if pred(r) {
        assert(Seq::<A>::empty().push(r) =~= seq![r]);
    }
}

proof fn lemma_filter_prepend<A>(r: A, s: Seq<A>, pred: spec_fn(A) -> bool)
    ensures
        (seq![r] + s).filter(pred) == if pred(r) {
            seq![r] + s.filter(pred)
        } else {
            s.filter(pred)
        },
{
    Seq::filter_distributes_over_add(seq![r], s, pred);
    lemma_filter_single(r, pred);
    if !pred(r) {
        assert(Seq::<A>::empty() + s.filter(pred) =~= s.filter(pred));
    }
}

/// Inserting `r` at `p` adds it to what a filter keeps: in front when
/// nothing before `p` passes the filter, and not at all when `r` fails it.
proof fn lemma_filter_insert<A>(s: Seq<A>, p: int, r: A, pred: spec_fn(A) -> bool)
    requires
        0 <= p <= s.len(),
        pred(r) ==> forall|i: int| 0 <= i < p ==> !pred(#[trigger] s[i]),
    ensures
        s.insert(p, r).filter(pred) == if pred(r) {
            seq![r] + s.filter(pred)
        } else {
            s.filter(pred)
        },
{
    let head = s.subrange(0, p);
    let tail = s.subrange(p, s.len() as int);
    assert(s =~= head + tail);
    assert(s.insert(p, r) =~= head + (seq![r] + tail));
    Seq::filter_distributes_over_add(head, tail, pred);
    Seq::filter_distributes_over_add(head, seq![r] + tail, pred);
    lemma_filter_prepend(r, tail, pred);
    if pred(r) {
        assert(head.all(|x: A| !pred(x))) by {
            assert forall|i: int| 0 <= i < head.len() implies !pred(#[trigger] head[i]) by {
                assert(head[i] == s[i]);
            }
        }
        head.lemma_all_neg_filter_empty(pred);
        assert(head.filter(pred) =~= Seq::<A>::empty());
        assert(Seq::<A>::empty() + (seq![r] + tail.filter(pred)) =~= seq![r] + (Seq::<A>::empty()
            + tail.filter(pred)));
    }
}

/// Sorts the rows of a `kind` table by `column`: identity columns ascend by
/// their UTF-8 bytes and resource columns descend. The sort is stable: rows
/// with equal keys keep their order, and a column past the last leaves the
/// rows as they are.
pub fn sort_rows(rows: &mut Vec<Row>, kind: ViewMode, column: usize)
    requires
        rows_fit(kind, rows_view(old(rows)@)),
    ensures
        rows_fit(kind, rows_view(final(rows)@)),
        sorted_by(rows_view(final(rows)@), column as int, label_count(kind) as int),
        rows_view(final(rows)@).to_multiset() == rows_view(old(rows)@).to_multiset(),
        forall|x: RowModel|
            row_fits(kind, x) ==> #[trigger] key_class(
                rows_view(final(rows)@),
                x,
                column as int,
                label_count(kind) as int,
            ) == key_class(rows_view(old(rows)@), x, column as int, label_count(kind) as int),
        column >= label_count(kind) + value_count(kind) ==> rows_view(final(rows)@) == rows_view(
            old(rows)@,
        ),
{
    broadcast use vstd::seq_lib::group_to_multiset_ensures;

    let labels = label_count_of(kind);
    let ghost initial = rows_view(rows@).to_multiset();
    let ghost given = rows_view(rows@);
    let ghost n = given.len() as int;
    assert(given.take(n) =~= given);
    assert(given.subrange(n, n) =~= Seq::<RowModel>::empty());
    proof {
        reveal(Seq::filter);
    }
    let mut sorted: Vec<Row> = Vec::new();
    assert(rows_view(sorted@) =~= Seq::<RowModel>::empty());
    while rows.len() > 0
        invariant
            labels == label_count(kind),
            rows_fit(kind, rows_view(rows@)),
            rows_fit(kind, rows_view(sorted@)),
            sorted_by(rows_view(sorted@), column as int, labels as int),
            rows_view(sorted@).to_multiset().add(rows_view(rows@).to_multiset()) == initial,
            n == given.len(),
            rows@.len() <= n,
            rows_fit(kind, given),
            rows_view(rows@) == given.take(rows@.len() as int),
            forall|x: RowModel|
                row_fits(kind, x) ==> #[trigger] key_class(
                    rows_view(sorted@),
                    x,
                    column as int,
                    labels as int,
                ) == key_class(given.subrange(rows@.len() as int, n), x, column as int, labels as int),
            column >= labels + value_count(kind) ==> rows_view(sorted@) == given.subrange(
                rows@.len() as int,
                n,
            ),
        decreases rows.len(),
    {
        let ghost before = rows@;
        let row = rows.pop().unwrap();
        proof {
            assert(rows_view(before) =~= rows_view(rows@).push(row@));
            vstd::seq_lib::to_multiset_build(rows_view(rows@), row@);
            assert(row_fits(kind, rows_view(before)[before.len() - 1]));
            assert(rows_fit(kind, rows_view(rows@))) by {
                assert forall|i: int| 0 <= i < rows_view(rows@).len() implies row_fits(
                    kind,
                    #[trigger] rows_view(rows@)[i],
                ) by {
                    assert(rows_view(rows@)[i] == rows_view(before)[i]);
                }
            }
        }
        let mut p: usize = 0;
        while p < sorted.len()
            invariant
                labels == label_count(kind),
                p <= sorted@.len(),
                row_fits(kind, row@),
                rows_fit(kind, rows_view(sorted@)),
                forall|i: int|
                    0 <= i < p ==> precedes(
                        #[trigger] rows_view(sorted@)[i],
                        row@,
                        column as int,
                        labels as int,
                    ),
                forall|i: int|
                    0 <= i < p ==> !precedes(
                        row@,
                        #[trigger] rows_view(sorted@)[i],
                        column as int,
                        labels as int,
                    ),
            ensures
                p <= sorted@.len(),
                forall|i: int|
                    0 <= i < p ==> precedes(
                        #[trigger] rows_view(sorted@)[i],
                        row@,
                        column as int,
                        labels as int,
                    ),
                forall|i: int|
                    0 <= i < p ==> !precedes(
                        row@,
                        #[trigger] rows_view(sorted@)[i],
                        column as int,
                        labels as int,
                    ),
                p < sorted@.len() ==> precedes(
                    row@,
                    rows_view(sorted@)[p as int],
                    column as int,
                    labels as int,
                ),
            decreases sorted.len() - p,
        {
            proof {
                assert(row_fits(kind, rows_view(sorted@)[p as int]));
                assert(rows_view(sorted@)[p as int] == sorted@[p as int]@);
            }
            if row_precedes(&row, &sorted[p], column, labels) {
                break;
            }
            proof {
                lemma_precedes_total(kind, row@, rows_view(sorted@)[p as int], column as int);
            }
            p = p + 1;
        }
        let ghost old_sorted = rows_view(sorted@);
        sorted.insert(p, row);
        proof {
            let s = rows_view(sorted@);
            assert(s =~= old_sorted.insert(p as int, row@));
            lemma_insert_to_multiset(old_sorted, p as int, row@);
            assert(rows_fit(kind, s)) by {
                assert forall|i: int| 0 <= i < s.len() implies row_fits(kind, #[trigger] s[i]) by {
                    if i < p {
                        assert(s[i] == old_sorted[i]);
                    } else if i > p {
                        assert(s[i] == old_sorted[i - 1]);
                    }
                }
            }
            assert forall|i: int, j: int| 0 <= i < j < s.len() implies precedes(
                #[trigger] s[i],
                #[trigger] s[j],
                column as int,
                labels as int,
            ) by {
                if j < p {
                    assert(s[i] == old_sorted[i] && s[j] == old_sorted[j]);
                } else if j == p {
                    assert(s[i] == old_sorted[i]);
                } else if i > p {
                    assert(s[i] == old_sorted[i - 1] && s[j] == old_sorted[j - 1]);
                } else if i == p {
                    assert(s[j] == old_sorted[j - 1]);
                    assert(row_fits(kind, old_sorted[p as int]));
                    if p + 1 < j {
                        lemma_precedes_transitive(
                            kind,
                            row@,
                            old_sorted[p as int],
                            old_sorted[j - 1],
                            column as int,
                        );
                    }
                } else {
                    assert(s[i] == old_sorted[i] && s[j] == old_sorted[j - 1]);
                }
            }
            assert(initial =~= s.to_multiset().add(rows_view(rows@).to_multiset()));
            let k = rows@.len() as int;
            assert(rows_view(before) == given.take(k + 1));
            assert(row@ == given[k]);
            assert(rows_view(rows@) =~= given.take(k));
            assert(given.subrange(k, n) =~= seq![row@] + given.subrange(k + 1, n));
            assert forall|x: RowModel| row_fits(kind, x) implies #[trigger] key_class(
                s,
                x,
                column as int,
                labels as int,
            ) == key_class(given.subrange(k, n), x, column as int, labels as int) by {
                let pred = |m: RowModel| same_key(m, x, column as int, labels as int);
                if pred(row@) {
                    assert forall|i: int| 0 <= i < p implies !pred(#[trigger] old_sorted[i]) by {
                        if pred(old_sorted[i]) {
                            assert(row_fits(kind, old_sorted[i]));
                            lemma_precedes_transitive(
                                kind,
                                row@,
                                x,
                                old_sorted[i],
                                column as int,
                            );
                        }
                    }
                }
                lemma_filter_insert(old_sorted, p as int, row@, pred);
                lemma_filter_prepend(row@, given.subrange(k + 1, n), pred);
                assert(key_class(old_sorted, x, column as int, labels as int) == key_class(
                    given.subrange(k + 1, n),
                    x,
                    column as int,
                    labels as int,
                ));
            }
            if column >= labels + value_count(kind) {
                if p > 0 {
                    assert(!precedes(row@, old_sorted[0], column as int, labels as int));
                }
                assert(p == 0);
                assert(s =~= seq![row@] + old_sorted);
            }
        }
    }
    *rows = sorted;
}

/// A row stays under a filter on `column` when its text there is `term`; a
/// column that is not an identity column filters nothing.
pub open spec fn keeps(m: RowModel, column: int, term: Seq<char>) -> bool {
    0 <= column < m.0.len() ==> m.0[column] == term
}

/// The rows that a filter on `column` for `term` keeps, in order.
pub open spec fn filtered(rows: Seq<RowModel>, column: int, term: Seq<char>) -> Seq<RowModel> {
    rows.filter(|m: RowModel| keeps(m, column, term))
}

/// Keeps the rows whose identity text at `column` equals `term` exactly; a
/// `column` past the identity columns (such as the no-filter sentinel)
/// keeps every row.
pub fn filter_rows(rows: Vec<Row>, column: usize, term: &str) -> (r: Vec<Row>)
    ensures
        rows_view(r@) == filtered(rows_view(rows@), column as int, term@),
{
    broadcast use vstd::seq_lib::group_filter_ensures;

    let ghost all = rows_view(rows@);
    let ghost pred = |m: RowModel| keeps(m, column as int, term@);
    let wanted = term.to_owned();
    let mut kept: Vec<Row> = Vec::new();
    assert(all.take(0) =~= Seq::<RowModel>::empty());
    assert(rows_view(kept@) =~= Seq::<RowModel>::empty());
    proof {
        reveal(Seq::filter);
    }
    for row in it: rows.into_iter()
        invariant
            wanted@ == term@,
            it.seq() == rows@,
            all == rows_view(rows@),
            pred == (|m: RowModel| keeps(m, column as int, term@)),
            rows_view(kept@) == all.take(it.index() as int).filter(pred),
    {
        let ghost before = kept@;
        let ghost i = it.index() as int;
        assert(row == rows@[i]);
        let keep = column >= row.labels.len() || row.labels[column] == wanted;
        assert(all.take(i + 1) =~= all.take(i).push(row@));
        assert(keep == pred(row@));
        proof {
            all.take(i).lemma_filter_push(row@, pred);
        }
        if keep {
            kept.push(row);
            assert(rows_view(kept@) =~= rows_view(before).push(row@));
        }
    }
    assert(all.take(all.len() as int) =~= all);
    kept
}

/// The sum of column `k` of the resource columns, without wrapping.
pub open spec fn column_sum(rows: Seq<RowModel>, k: int) -> int
    decreases rows.len(),
{
    if rows.len() == 0 {
        0
    } else {
        column_sum(rows.drop_last(), k) + rows.last().1[k]
    }
}

/// The resource columns of the total row: each column's sum, wrapped into
/// `i64`.
pub open spec fn total_values(kind: ViewMode, rows: Seq<RowModel>) -> Seq<i64> {
    Seq::new(value_count(kind), |k: int| wrap(column_sum(rows, k)) as i64)
}

/// Sums every resource column over the rows, wrapping around on overflow.
pub fn column_totals(rows: &Vec<Row>, kind: ViewMode) -> (r: Vec<i64>)
    requires
        rows_fit(kind, rows_view(rows@)),
    ensures
        r@ == total_values(kind, rows_view(rows@)),
{
    let ghost all = rows_view(rows@);
    let count = value_count_of(kind);
    let mut totals: Vec<i64> = Vec::new();
    let mut k: usize = 0;
    while k < count
        invariant
            count == value_count(kind),
            all == rows_view(rows@),
            rows_fit(kind, all),
            k <= count,
            totals@.len() == k,
            forall|j: int| 0 <= j < k ==> totals@[j] == total_values(kind, all)[j],
        decreases count - k,
    {
        let mut sum: i64 = 0;
        let mut i: usize = 0;
        proof {
            crate::resource::lemma_wrap_small(0);
            assert(all.take(0) =~= Seq::<RowModel>::empty());
        }
        while i < rows.len()
            invariant
                count == value_count(kind),
                all == rows_view(rows@),
                rows_fit(kind, all),
                k < count,
                i <= all.len(),
                sum == wrap(column_sum(all.take(i as int), k as int)),
            decreases rows.len() - i,
        {
            proof {
                assert(row_fits(kind, all[i as int]));
                assert(all.take(i + 1).drop_last() =~= all.take(i as int));
                crate::resource::lemma_wrap_add(
                    column_sum(all.take(i as int), k as int),
                    all[i as int].1[k as int] as int,
                );
            }
            sum = crate::resource::add_wrapping(sum, rows[i].values[k]);
            i = i + 1;
        }
        assert(all.take(all.len() as int) =~= all);
        totals.push(sum);
        k = k + 1;
    }
    assert(totals@ =~= total_values(kind, all));
    totals
}

/// Whether resource column `k` of `kind` holds CPU (else memory).
pub open spec fn is_cpu_column(kind: ViewMode, k: int) -> bool {
    match kind {
        ViewMode::Node => k == 0 || k == 2 || k == 3,
        _ => k == 0 || k == 1,
    }
}

pub open spec fn value_text(kind: ViewMode, k: int, v: i64) -> Seq<char> {
    if is_cpu_column(kind, k) {
        cpu_text(v as int)
    } else {
        memory_text(v as int)
    }
}

/// The cells of a row as shown: identity texts, then formatted amounts.
pub open spec fn row_text(kind: ViewMode, m: RowModel) -> Seq<Seq<char>> {
    m.0 + Seq::new(m.1.len(), |k: int| value_text(kind, k, m.1[k]))
}

pub open spec fn header_text(kind: ViewMode) -> Seq<Seq<char>> {
    match kind {
        ViewMode::Node => seq![
            "Node Name"@,
            "CPU Alloc."@,
            "Memory Alloc."@,
            "CPU Req."@,
            "CPU Lim."@,
            "Mem Req."@,
            "Mem Lim."@,
        ],
        ViewMode::Pod => seq![
            "Namespace"@,
            "Pod Name"@,
            "Status"@,
            "Node"@,
            "CPU Req."@,
            "CPU Lim."@,
            "Mem Req."@,
            "Mem Lim."@,
        ],
        ViewMode::Namespace => seq![
            "Namespace"@,
            "CPU Req."@,
            "CPU Lim."@,
            "Mem Req."@,
            "Mem Lim."@,
        ],
    }
}

/// The identity columns of the total row: `TOTAL`, then blanks.
pub open spec fn total_labels(kind: ViewMode) -> Seq<Seq<char>> {
    seq!["TOTAL"@] + Seq::new((label_count(kind) - 1) as nat, |i: int| Seq::<char>::empty())
}

pub open spec fn total_row(kind: ViewMode, rows: Seq<RowModel>) -> RowModel {
    (total_labels(kind), total_values(kind, rows))
}

pub open spec fn strings_view(v: Seq<String>) -> Seq<Seq<char>> {
    v.map_values(|s: String| s@)
}

pub open spec fn texts(v: Vec<String>) -> Seq<Seq<char>> {
    strings_view(v@)
}

pub open spec fn table_texts(t: Seq<Vec<String>>) -> Seq<Seq<Seq<char>>> {
    t.map_values(|r: Vec<String>| texts(r))
}

proof fn lemma_strings_push(v: Seq<String>, x: String)
    ensures
        strings_view(v.push(x)) == strings_view(v).push(x@),
{
    assert(strings_view(v.push(x)) =~= strings_view(v).push(x@));
}

proof fn lemma_table_push(t: Seq<Vec<String>>, x: Vec<String>)
    ensures
        table_texts(t.push(x)) == table_texts(t).push(texts(x)),
{
    assert(table_texts(t.push(x)) =~= table_texts(t).push(texts(x)));
}

/// The whole table as text: the header, one line per row in order, and the
/// total row last.
pub open spec fn table_text(kind: ViewMode, rows: Seq<RowModel>) -> Seq<Seq<Seq<char>>> {
    seq![header_text(kind)] + rows.map_values(|m: RowModel| row_text(kind, m)) + seq![
        row_text(kind, total_row(kind, rows)),
    ]
}

fn header_row(kind: ViewMode) -> (r: Vec<String>)
    ensures
        texts(r) == header_text(kind),
{
    let names: Vec<&str> = match kind {
        ViewMode::Node => vec![
            "Node Name",
            "CPU Alloc.",
            "Memory Alloc.",
            "CPU Req.",
            "CPU Lim.",
            "Mem Req.",
            "Mem Lim.",
        ],
        ViewMode::Pod => vec![
            "Namespace",
            "Pod Name",
            "Status",
            "Node",
            "CPU Req.",
            "CPU Lim.",
            "Mem Req.",
            "Mem Lim.",
        ],
        ViewMode::Namespace => vec!["Namespace", "CPU Req.", "CPU Lim.", "Mem Req.", "Mem Lim."],
    };
    let ghost want = header_text(kind);
    assert(names@.len() == want.len());
    assert(forall|i: int| 0 <= i < want.len() ==> names@[i]@ == #[trigger] want[i]);
    let mut r: Vec<String> = Vec::new();
    let mut i: usize = 0;
    while i < names.len()
        invariant
            i <= names@.len() == want.len(),
            forall|j: int| 0 <= j < want.len() ==> names@[j]@ == #[trigger] want[j],
            texts(r) == want.take(i as int),
        decreases names.len() - i,
    {
        let ghost before = r@;
        let name = names[i].to_owned();
        r.push(name);
        proof {
            lemma_strings_push(before, name);
        }
        assert(texts(r) =~= want.take(i + 1));
        i = i + 1;
    }
    assert(want.take(want.len() as int) =~= want);
    r
}

fn format_value(kind: ViewMode, k: usize, v: i64) -> (r: String)
    ensures
        r@ == value_text(kind, k as int, v),
{
    let cpu = match kind {
        ViewMode::Node => k == 0 || k == 2 || k == 3,
        _ => k == 0 || k == 1,
    };
    if cpu {
        format_cpu(ResourceValue(v))
    } else {
        format_memory(ResourceValue(v))
    }
}

fn render_row(kind: ViewMode, row: &Row) -> (r: Vec<String>)
    ensures
        texts(r) == row_text(kind, row@),
{
    let ghost want = row_text(kind, row@);
    let mut r: Vec<String> = Vec::new();
    let mut i: usize = 0;
    while i < row.labels.len()
        invariant
            i <= row.labels@.len(),
            texts(r) == row@.0.take(i as int),
        decreases row.labels.len() - i,
    {
        let ghost before = r@;
        let label = row.labels[i].clone();
        r.push(label);
        proof {
            lemma_strings_push(before, label);
        }
        assert(texts(r) =~= row@.0.take(i + 1));
        i = i + 1;
    }
    assert(row@.0.take(i as int) =~= row@.0);
    let mut k: usize = 0;
    while k < row.values.len()
        invariant
            k <= row.values@.len(),
            want == row_text(kind, row@),
            texts(r) == want.take(row@.0.len() + k),
        decreases row.values.len() - k,
    {
        let ghost before = r@;
        let cell = format_value(kind, k, row.values[k]);
        r.push(cell);
        proof {
            lemma_strings_push(before, cell);
        }
        assert(texts(r) =~= want.take(row@.0.len() + k + 1));
        k = k + 1;
    }
    assert(want.take(row@.0.len() + k) =~= want);
    r
}

fn total_label_row(kind: ViewMode) -> (r: Vec<String>)
    ensures
        texts(r) == total_labels(kind),
{
    let count = label_count_of(kind);
    let mut r: Vec<String> = Vec::new();
    let first = "TOTAL".to_owned();
    r.push(first);
    proof {
        lemma_strings_push(Seq::empty(), first);
        assert(r@ =~= Seq::<String>::empty().push(first));
        assert(strings_view(Seq::<String>::empty()) =~= Seq::<Seq<char>>::empty());
        assert(total_labels(kind).take(1) =~= seq!["TOTAL"@]);
    }
    let mut i: usize = 1;
    while i < count
        invariant
            count == label_count(kind),
            1 <= i <= count,
            texts(r) == total_labels(kind).take(i as int),
        decreases count - i,
    {
        let ghost before = r@;
        let blank = String::new();
        r.push(blank);
        proof {
            lemma_strings_push(before, blank);
        }
        assert(texts(r) =~= total_labels(kind).take(i + 1));
        i = i + 1;
    }
    assert(total_labels(kind).take(count as int) =~= total_labels(kind));
    r
}

/// Lays out a `kind` table: the header, each row formatted in the order
/// given, and a `TOTAL` row whose amounts are the column sums of exactly
/// these rows.
pub fn build_table(kind: ViewMode, rows: &Vec<Row>) -> (r: Vec<Vec<String>>)
    requires
        rows_fit(kind, rows_view(rows@)),
    ensures
        table_texts(r@) == table_text(kind, rows_view(rows@)),
{
    let ghost all = rows_view(rows@);
    let ghost want = table_text(kind, all);
    let mut table: Vec<Vec<String>> = Vec::new();
    let header = header_row(kind);
    table.push(header);
    proof {
        lemma_table_push(Seq::empty(), header);
        assert(table@ =~= Seq::<Vec<String>>::empty().push(header));
        assert(table_texts(Seq::<Vec<String>>::empty()) =~= Seq::<Seq<Seq<char>>>::empty());
    }
    assert(table_texts(table@) =~= want.take(1));
    let mut i: usize = 0;
    while i < rows.len()
        invariant
            all == rows_view(rows@),
            want == table_text(kind, all),
            i <= all.len(),
            table_texts(table@) == want.take(i + 1),
        decreases rows.len() - i,
    {
        let ghost before = table@;
        let line = render_row(kind, &rows[i]);
        table.push(line);
        proof {
            lemma_table_push(before, line);
        }
        assert(table_texts(table@) =~= want.take(i + 2));
        i = i + 1;
    }
    let total = Row { labels: total_label_row(kind), values: column_totals(rows, kind) };
    assert(total@ == total_row(kind, all));
    let ghost before = table@;
    let line = render_row(kind, &total);
    table.push(line);
    proof {
        lemma_table_push(before, line);
    }
    assert(table_texts(table@) =~= want);
    table
}

} // verus!
