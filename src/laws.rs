//! What holds of the library across calls: the algebra of adding resource
//! sets, totals that do not depend on row order, the direction of each sort
//! column, and what a filter keeps.
use crate::resource::{
    combined, cpu_key, lemma_wrap_add, lemma_wrap_fits, lemma_wrap_small, memory_key, quantity_in, wrap,
    QuantityKind, Resources,
};
use crate::table::{
    column_sum, filtered, keeps, label_count, rows_fit, row_fits, sorted_by, text_le, total_values,
    value_count, RowModel, ViewMode,
};
use crate::aggregate::{group_sum, node_row, on_node, pod_row, text_or_empty, NodeRecord, PodRecord};
use crate::quantity::ResourceValue;
use crate::app::{AppState, Command};
use crate::config::{lemma_short_word_kept, MAX_WORD_BYTES};
use vstd::prelude::*;
use vstd::utf8::encode_utf8;

verus! {

proof fn lemma_wrap_assoc(a: int, b: int, c: int)
    ensures
        wrap(wrap(a + b) + c) == wrap(a + wrap(b + c)),
{
    lemma_wrap_add(a + b, c);
    lemma_wrap_add(b + c, a);
    assert(wrap(b + c) + a == a + wrap(b + c));
    assert(b + c + a == a + b + c);
}

proof fn lemma_field_laws(a: i64, b: i64, c: i64)
    ensures
        wrap(a + b) == wrap(b + a),
        wrap((wrap(a + b) as i64) + c) == wrap(a + (wrap(b + c) as i64)),
        wrap(a + 0) == a,
{
    lemma_wrap_fits(a + b);
    lemma_wrap_fits(b + c);
    lemma_wrap_assoc(a as int, b as int, c as int);
    lemma_wrap_small(a as int);
}

/// Adding resource sets is commutative and associative, and adding the
/// zero set changes nothing.
pub proof fn lemma_combined_laws(a: Resources, b: Resources, c: Resources, zero: Resources)
    requires
        zero.is_zero(),
    ensures
        combined(a, b) == combined(b, a),
        combined(combined(a, b), c) == combined(a, combined(b, c)),
        combined(a, zero) == a,
{
    lemma_field_laws(a.cpu_request.0, b.cpu_request.0, c.cpu_request.0);
    lemma_field_laws(a.cpu_limit.0, b.cpu_limit.0, c.cpu_limit.0);
    lemma_field_laws(a.memory_request.0, b.memory_request.0, c.memory_request.0);
    lemma_field_laws(a.memory_limit.0, b.memory_limit.0, c.memory_limit.0);
}

proof fn lemma_column_sum_remove(s: Seq<RowModel>, j: int, k: int)
    requires
        0 <= j < s.len(),
    ensures
        column_sum(s, k) == column_sum(s.remove(j), k) + s[j].1[k],
    decreases s.len(),
{
    if j == s.len() - 1 {
        assert(s.remove(j) =~= s.drop_last());
    } else {
        assert(s.remove(j).drop_last() =~= s.drop_last().remove(j));
        assert(s.remove(j).last() == s.last());
        lemma_column_sum_remove(s.drop_last(), j, k);
    }
}

proof fn lemma_column_sum_permutation(a: Seq<RowModel>, b: Seq<RowModel>, k: int)
    requires
        a.to_multiset() == b.to_multiset(),
    ensures
        column_sum(a, k) == column_sum(b, k),
    decreases a.len(),
{
    broadcast use vstd::seq_lib::group_to_multiset_ensures;

    if a.len() == 0 {
        assert(a.to_multiset().len() == a.len());
        assert(b.to_multiset().len() == b.len());
    } else {
        let x = a.last();
        let rest = a.drop_last();
        assert(rest.push(x) =~= a);
        assert(a.to_multiset().count(x) > 0);
        assert(b.contains(x));
        let j = choose|j: int| 0 <= j < b.len() && b[j] == x;
        let b2 = b.remove(j);
        assert(b2.to_multiset() =~= rest.to_multiset()) by {
            assert(b2.to_multiset() =~= b.to_multiset().remove(x));
            assert(a.to_multiset() =~= rest.to_multiset().insert(x));
        }
        lemma_column_sum_permutation(rest, b2, k);
        lemma_column_sum_remove(b, j, k);
    }
}

/// The total row does not depend on the order of the rows: any reordering
/// of the same rows gives the same totals.
pub proof fn lemma_total_order_independent(kind: ViewMode, a: Seq<RowModel>, b: Seq<RowModel>)
    requires
        a.to_multiset() == b.to_multiset(),
    ensures
        total_values(kind, a) == total_values(kind, b),
{
    assert forall|k: int| 0 <= k < value_count(kind) implies #[trigger] total_values(kind, a)[k]
        == total_values(kind, b)[k] by {
        lemma_column_sum_permutation(a, b, k);
    }
    assert(total_values(kind, a) =~= total_values(kind, b));
}

/// In every view, a table sorted on its first column ascends by that
/// column's text, and one sorted on a resource column descends by that
/// amount.
pub proof fn lemma_sort_direction(kind: ViewMode, rows: Seq<RowModel>, column: int)
    requires
        rows_fit(kind, rows),
        sorted_by(rows, column, label_count(kind) as int),
    ensures
        column == 0 ==> forall|i: int, j: int|
            0 <= i < j < rows.len() ==> text_le(#[trigger] rows[i].0[0], #[trigger] rows[j].0[0]),
        label_count(kind) <= column < label_count(kind) + value_count(kind) ==> forall|
            i: int,
            j: int,
        |
            0 <= i < j < rows.len() ==> #[trigger] rows[i].1[column - label_count(kind)]
                >= #[trigger] rows[j].1[column - label_count(kind)],
{
    if column == 0 {
        assert forall|i: int, j: int| 0 <= i < j < rows.len() implies text_le(
            #[trigger] rows[i].0[0],
            #[trigger] rows[j].0[0],
        ) by {
            assert(sorted_by(rows, column, label_count(kind) as int));
            let ri = rows[i];
            let rj = rows[j];
            assert(crate::table::precedes(ri, rj, column, label_count(kind) as int));
        }
    }
    if label_count(kind) <= column < label_count(kind) + value_count(kind) {
        assert forall|i: int, j: int| 0 <= i < j < rows.len() implies #[trigger] rows[i].1[column
            - label_count(kind)] >= #[trigger] rows[j].1[column - label_count(kind)] by {
            let ri = rows[i];
            let rj = rows[j];
            assert(row_fits(kind, ri));
            assert(crate::table::precedes(ri, rj, column, label_count(kind) as int));
        }
    }
}

/// Column `k` summed over the rows that the filter keeps, counting the
/// others as zero.
pub open spec fn kept_sum(rows: Seq<RowModel>, column: int, term: Seq<char>, k: int) -> int
    decreases rows.len(),
{
    if rows.len() == 0 {
        0
    } else {
        kept_sum(rows.drop_last(), column, term, k) + if keeps(rows.last(), column, term) {
            rows.last().1[k]
        } else {
            0
        }
    }
}

/// A filter keeps exactly the rows whose text at its column equals its term
/// (all of them when the column is not an identity column), in their
/// order, and the totals of what it keeps are the sums over those rows
/// alone.
pub proof fn lemma_filter_exact(rows: Seq<RowModel>, column: int, term: Seq<char>, k: int)
    ensures
        forall|i: int|
            0 <= i < filtered(rows, column, term).len() ==> keeps(
                #[trigger] filtered(rows, column, term)[i],
                column,
                term,
            ),
        forall|i: int|
            0 <= i < rows.len() && keeps(rows[i], column, term) ==> filtered(rows, column, term).contains(#[trigger] rows[i]),
        column_sum(filtered(rows, column, term), k) == kept_sum(
            rows,
            column,
            term,
            k,
        ),
    decreases rows.len(),
{
    broadcast use vstd::seq_lib::group_filter_ensures;

    let pred = |m: RowModel| keeps(m, column, term);
    reveal(Seq::filter);
    if rows.len() > 0 {
        lemma_filter_exact(rows.drop_last(), column, term, k);
        let f = rows.drop_last().filter(pred);
        if pred(rows.last()) {
            assert(rows.filter(pred) == f.push(rows.last()));
            assert(f.push(rows.last()).drop_last() =~= f);
        } else {
            assert(rows.filter(pred) == f);
        }
    }
}

/// Drilling down from a node row leaves a filter that keeps exactly the
/// pods whose node field is that node's name (for names that fit in the
/// search word).
pub proof fn lemma_drill_down_keeps_node_pods(o: AppState, n: AppState, pods: Seq<PodRecord>)
    requires
        n.stepped(o, Command::DrillDown),
        o.view_mode == ViewMode::Node,
        o.can_drill_down(),
        encode_utf8(o.selected_name()).len() <= MAX_WORD_BYTES,
    ensures
        n.view_mode == ViewMode::Pod,
        forall|i: int|
            0 <= i < pods.len() ==> (keeps(
                pod_row(#[trigger] pods[i]),
                n.search_config.column as int,
                n.search_config.word@,
            ) <==> text_or_empty(pods[i].node_name) == o.selected_name()),
{
    lemma_short_word_kept(o.selected_name());
}

/// The zero resource set.
pub open spec fn zero_resources() -> Resources {
    Resources {
        cpu_request: ResourceValue(0),
        cpu_limit: ResourceValue(0),
        memory_request: ResourceValue(0),
        memory_limit: ResourceValue(0),
    }
}

/// Resource sets added up one after another with `Resources::add`,
/// starting from zero.
pub open spec fn fold_add(rs: Seq<Resources>) -> Resources
    decreases rs.len(),
{
    if rs.len() == 0 {
        zero_resources()
    } else {
        combined(fold_add(rs.drop_last()), rs.last())
    }
}

pub open spec fn field(r: Resources, k: int) -> int {
    if k == 0 {
        r.cpu_request.0 as int
    } else if k == 1 {
        r.cpu_limit.0 as int
    } else if k == 2 {
        r.memory_request.0 as int
    } else {
        r.memory_limit.0 as int
    }
}

pub open spec fn field_sum(rs: Seq<Resources>, k: int) -> int
    decreases rs.len(),
{
    if rs.len() == 0 {
        0
    } else {
        field_sum(rs.drop_last(), k) + field(rs.last(), k)
    }
}

proof fn lemma_fold_fields(rs: Seq<Resources>, k: int)
    requires
        0 <= k < 4,
    ensures
        field(fold_add(rs), k) == wrap(field_sum(rs, k)),
    decreases rs.len(),
{
    if rs.len() == 0 {
        lemma_wrap_small(0);
    } else {
        let prev = fold_add(rs.drop_last());
        lemma_fold_fields(rs.drop_last(), k);
        let x = field(prev, k) + field(rs.last(), k);
        lemma_wrap_fits(x);
        assert(field(fold_add(rs), k) == wrap(x));
        lemma_wrap_add(field_sum(rs.drop_last(), k), field(rs.last(), k));
    }
}

proof fn lemma_field_sum_remove(s: Seq<Resources>, j: int, k: int)
    requires
        0 <= j < s.len(),
    ensures
        field_sum(s, k) == field_sum(s.remove(j), k) + field(s[j], k),
    decreases s.len(),
{
    if j == s.len() - 1 {
        assert(s.remove(j) =~= s.drop_last());
    } else {
        assert(s.remove(j).drop_last() =~= s.drop_last().remove(j));
        assert(s.remove(j).last() == s.last());
        lemma_field_sum_remove(s.drop_last(), j, k);
    }
}

proof fn lemma_field_sum_permutation(a: Seq<Resources>, b: Seq<Resources>, k: int)
    requires
        a.to_multiset() == b.to_multiset(),
    ensures
        field_sum(a, k) == field_sum(b, k),
    decreases a.len(),
{
    broadcast use vstd::seq_lib::group_to_multiset_ensures;

    if a.len() == 0 {
        assert(a.to_multiset().len() == a.len());
        assert(b.to_multiset().len() == b.len());
    } else {
        let x = a.last();
        let rest = a.drop_last();
        assert(rest.push(x) =~= a);
        assert(a.to_multiset().count(x) > 0);
        assert(b.contains(x));
        let j = choose|j: int| 0 <= j < b.len() && b[j] == x;
        let b2 = b.remove(j);
        assert(b2.to_multiset() =~= rest.to_multiset()) by {
            assert(b2.to_multiset() =~= b.to_multiset().remove(x));
            assert(a.to_multiset() =~= rest.to_multiset().insert(x));
        }
        lemma_field_sum_permutation(rest, b2, k);
        lemma_field_sum_remove(b, j, k);
    }
}

/// Adding up resource sets one by one gives the same result in any order:
/// each field is the sum of that field over all sets, wrapped into `i64`.
pub proof fn lemma_fold_order_independent(a: Seq<Resources>, b: Seq<Resources>)
    requires
        a.to_multiset() == b.to_multiset(),
    ensures
        fold_add(a) == fold_add(b),
        forall|k: int| 0 <= k < 4 ==> #[trigger] field(fold_add(a), k) == wrap(field_sum(a, k)),
{
    assert forall|k: int| 0 <= k < 4 implies #[trigger] field(fold_add(a), k) == wrap(
        field_sum(a, k),
    ) && field(fold_add(a), k) == field(fold_add(b), k) by {
        lemma_fold_fields(a, k);
        lemma_fold_fields(b, k);
        lemma_field_sum_permutation(a, b, k);
    }
    assert(field(fold_add(a), 0) == field(fold_add(b), 0));
    assert(field(fold_add(a), 1) == field(fold_add(b), 1));
    assert(field(fold_add(a), 2) == field(fold_add(b), 2));
    assert(field(fold_add(a), 3) == field(fold_add(b), 3));
}

proof fn lemma_group_sum_empty(pods: Seq<PodRecord>, name: Seq<char>, k: int)
    requires
        forall|i: int| 0 <= i < pods.len() ==> !on_node(#[trigger] pods[i], name),
    ensures
        group_sum(pods, true, name, k) == 0,
    decreases pods.len(),
{
    if pods.len() > 0 {
        let rest = pods.drop_last();
        assert forall|i: int| 0 <= i < rest.len() implies !on_node(#[trigger] rest[i], name) by {
            assert(rest[i] == pods[i]);
        }
        assert(!on_node(pods[pods.len() - 1], name));
        lemma_group_sum_empty(rest, name, k);
    }
}

/// A node that no pod names still has its row: its own allocatable figures
/// and zero requests and limits.
pub proof fn lemma_node_without_pods(node: NodeRecord, pods: Seq<PodRecord>)
    requires
        forall|i: int| 0 <= i < pods.len() ==> !on_node(#[trigger] pods[i], node.name@),
    ensures
        node_row(node, pods).0 == seq![node.name@],
        node_row(node, pods).1 == seq![
            quantity_in(node.allocatable, cpu_key(), QuantityKind::Cpu) as i64,
            quantity_in(node.allocatable, memory_key(), QuantityKind::Memory) as i64,
            0i64,
            0i64,
            0i64,
            0i64,
        ],
{
    lemma_group_sum_empty(pods, node.name@, 0);
    lemma_group_sum_empty(pods, node.name@, 1);
    lemma_group_sum_empty(pods, node.name@, 2);
    lemma_group_sum_empty(pods, node.name@, 3);
    lemma_wrap_small(0);
    assert(node_row(node, pods).1 =~= seq![
        quantity_in(node.allocatable, cpu_key(), QuantityKind::Cpu) as i64,
        quantity_in(node.allocatable, memory_key(), QuantityKind::Memory) as i64,
        0i64,
        0i64,
        0i64,
        0i64,
    ]);
}

} // verus!
