use crate::config::{SearchConfig, SortConfig};
use crate::resource::{
    cpu_key, cpu_limit_of, cpu_request_of, entries_quantity, lemma_wrap_add, lemma_wrap_small,
    memory_key, memory_limit_of, memory_request_of, quantity_in, wrap, NamespaceResources,
    NodeResources, QuantityEntry, QuantityKind, ResourceRequirements, Resources,
};
use crate::table::{
    build_table, filter_rows, filtered, keeps, key_class, label_count, row_fits, row_text, rows_fit, rows_view,
    sort_rows, sorted_by, table_text, table_texts, total_row, value_count, Row, RowModel, ViewMode,
};
use vstd::prelude::*;

verus! {

/// A node as the cluster reports it.
pub struct NodeRecord {
    pub name: String,
    pub allocatable: Option<Vec<QuantityEntry>>,
}

/// A pod as the cluster reports it, with the requirements of each of its
/// containers.
pub struct PodRecord {
    pub namespace: Option<String>,
    pub name: String,
    pub phase: String,
    pub node_name: Option<String>,
    pub containers: Vec<ResourceRequirements>,
}

/// A namespace as the cluster reports it.
pub struct NamespaceRecord {
    pub name: String,
}

/// Figure `k` of a container: CPU request, CPU limit, memory request,
/// memory limit.
pub open spec fn figure(c: ResourceRequirements, k: int) -> int {
    if k == 0 {
        cpu_request_of(c)
    } else if k == 1 {
        cpu_limit_of(c)
    } else if k == 2 {
        memory_request_of(c)
    } else {
        memory_limit_of(c)
    }
}

pub open spec fn containers_sum(cs: Seq<ResourceRequirements>, k: int) -> int
    decreases cs.len(),
{
    if cs.len() == 0 {
        0
    } else {
        containers_sum(cs.drop_last(), k) + figure(cs.last(), k)
    }
}

/// Figure `k` summed over the containers of a pod, without wrapping.
pub open spec fn pod_sum(p: PodRecord, k: int) -> int {
    containers_sum(p.containers@, k)
}

/// Figure `k` summed over the pods of the node (`by_node`) or namespace
/// `name`.
pub open spec fn group_sum(pods: Seq<PodRecord>, by_node: bool, name: Seq<char>, k: int) -> int
    decreases pods.len(),
{
    if pods.len() == 0 {
        0
    } else {
        group_sum(pods.drop_last(), by_node, name, k) + if belongs(pods.last(), by_node, name) {
            pod_sum(pods.last(), k)
        } else {
            0
        }
    }
}

pub open spec fn on_node(p: PodRecord, name: Seq<char>) -> bool {
    match p.node_name {
        Some(n) => n@ == name,
        None => false,
    }
}

pub open spec fn in_namespace(p: PodRecord, name: Seq<char>) -> bool {
    match p.namespace {
        Some(n) => n@ == name,
        None => false,
    }
}

/// A pod belongs to the group of a node by its node name, to that of a
/// namespace by its namespace; a pod without that field belongs to none.
pub open spec fn belongs(p: PodRecord, by_node: bool, name: Seq<char>) -> bool {
    if by_node {
        on_node(p, name)
    } else {
        in_namespace(p, name)
    }
}

pub open spec fn text_or_empty(s: Option<String>) -> Seq<char> {
    match s {
        Some(t) => t@,
        None => Seq::empty(),
    }
}

/// The row of a node: its allocatable CPU and memory, then what the pods
/// scheduled on it request and limit.
pub open spec fn node_row(node: NodeRecord, pods: Seq<PodRecord>) -> RowModel {
    (
        seq![node.name@],
        seq![
            quantity_in(node.allocatable, cpu_key(), QuantityKind::Cpu) as i64,
            quantity_in(node.allocatable, memory_key(), QuantityKind::Memory) as i64,
            wrap(group_sum(pods, true, node.name@, 0)) as i64,
            wrap(group_sum(pods, true, node.name@, 1)) as i64,
            wrap(group_sum(pods, true, node.name@, 2)) as i64,
            wrap(group_sum(pods, true, node.name@, 3)) as i64,
        ],
    )
}

/// The row of a pod: namespace, name, phase and node, then its own figures.
pub open spec fn pod_row(p: PodRecord) -> RowModel {
    (
        seq![text_or_empty(p.namespace), p.name@, p.phase@, text_or_empty(p.node_name)],
        seq![
            wrap(pod_sum(p, 0)) as i64,
            wrap(pod_sum(p, 1)) as i64,
            wrap(pod_sum(p, 2)) as i64,
            wrap(pod_sum(p, 3)) as i64,
        ],
    )
}

/// The row of a namespace: what the pods in it request and limit.
pub open spec fn namespace_row(ns: NamespaceRecord, pods: Seq<PodRecord>) -> RowModel {
    (
        seq![ns.name@],
        seq![
            wrap(group_sum(pods, false, ns.name@, 0)) as i64,
            wrap(group_sum(pods, false, ns.name@, 1)) as i64,
            wrap(group_sum(pods, false, ns.name@, 2)) as i64,
            wrap(group_sum(pods, false, ns.name@, 3)) as i64,
        ],
    )
}

pub open spec fn node_rows(nodes: Seq<NodeRecord>, pods: Seq<PodRecord>) -> Seq<RowModel> {
    nodes.map_values(|n: NodeRecord| node_row(n, pods))
}

pub open spec fn pod_rows(pods: Seq<PodRecord>) -> Seq<RowModel> {
    pods.map_values(|p: PodRecord| pod_row(p))
}

pub open spec fn namespace_rows(namespaces: Seq<NamespaceRecord>, pods: Seq<PodRecord>) -> Seq<
    RowModel,
> {
    namespaces.map_values(|n: NamespaceRecord| namespace_row(n, pods))
}

/// `arranged` is `rows` as the sort setting leaves them: unchanged without
/// one, else reordered and sorted by its column, with rows of equal keys
/// in their given order (all rows, for a column past the last).
pub open spec fn arranged(
    arranged: Seq<RowModel>,
    rows: Seq<RowModel>,
    kind: ViewMode,
    sort_config: Option<SortConfig>,
) -> bool {
    match sort_config {
        None => arranged == rows,
        Some(c) => {
            &&& arranged.to_multiset() == rows.to_multiset()
            &&& sorted_by(arranged, c.column as int, label_count(kind) as int)
            &&& forall|x: RowModel|
                row_fits(kind, x) ==> #[trigger] key_class(
                    arranged,
                    x,
                    c.column as int,
                    label_count(kind) as int,
                ) == key_class(rows, x, c.column as int, label_count(kind) as int)
            &&& c.column >= label_count(kind) + value_count(kind) ==> arranged == rows
        },
    }
}

pub open spec fn res_figure(r: Resources, k: int) -> i64 {
    if k == 0 {
        r.cpu_request.0
    } else if k == 1 {
        r.cpu_limit.0
    } else if k == 2 {
        r.memory_request.0
    } else {
        r.memory_limit.0
    }
}

/// Adds the containers of `pod` to `r`.
fn add_pod(r: &mut Resources, pod: &PodRecord)
    ensures
        forall|k: int|
            0 <= k < 4 ==> #[trigger] res_figure(*final(r), k) == wrap(
                res_figure(*old(r), k) + pod_sum(*pod, k),
            ),
{
    let ghost start = *r;
    let ghost cs = pod.containers@;
    let mut i: usize = 0;
    proof {
        assert forall|k: int| 0 <= k < 4 implies #[trigger] res_figure(*r, k) == wrap(
            res_figure(start, k) + containers_sum(cs.take(0), k),
        ) by {
            assert(cs.take(0) =~= Seq::<ResourceRequirements>::empty());
            lemma_wrap_small(res_figure(start, k) as int);
        }
    }
    while i < pod.containers.len()
        invariant
            cs == pod.containers@,
            i <= cs.len(),
            forall|k: int|
                0 <= k < 4 ==> #[trigger] res_figure(*r, k) == wrap(
                    res_figure(start, k) + containers_sum(cs.take(i as int), k),
                ),
        decreases pod.containers.len() - i,
    {
        let ghost before = *r;
        r.add_container_resources(&pod.containers[i]);
        proof {
            assert(cs.take(i + 1).drop_last() =~= cs.take(i as int));
            assert forall|k: int| 0 <= k < 4 implies #[trigger] res_figure(*r, k) == wrap(
                res_figure(start, k) + containers_sum(cs.take(i + 1), k),
            ) by {
                let s = res_figure(start, k) + containers_sum(cs.take(i as int), k);
                assert(res_figure(before, k) == wrap(s));
                assert(cs.take(i + 1).last() == cs[i as int]);
                assert(containers_sum(cs.take(i + 1), k) == containers_sum(cs.take(i as int), k)
                    + figure(cs[i as int], k));
                assert(res_figure(*r, k) == wrap(res_figure(before, k) + figure(cs[i as int], k)));
                lemma_wrap_add(s, figure(cs[i as int], k));
            }
        }
        i = i + 1;
    }
    assert(cs.take(i as int) =~= cs);
}

fn resources_values(r: &Resources) -> (v: Vec<i64>)
    ensures
        v@ == seq![r.cpu_request.0, r.cpu_limit.0, r.memory_request.0, r.memory_limit.0],
{
    let v = vec![r.cpu_request.0, r.cpu_limit.0, r.memory_request.0, r.memory_limit.0];
    assert(v@ =~= seq![r.cpu_request.0, r.cpu_limit.0, r.memory_request.0, r.memory_limit.0]);
    v
}

fn one_label(s: &String) -> (v: Vec<String>)
    ensures
        crate::table::texts(v) == seq![s@],
{
    let v = vec![s.clone()];
    assert(crate::table::texts(v) =~= seq![s@]);
    v
}

fn string_or_empty(s: &Option<String>) -> (r: String)
    ensures
        r@ == text_or_empty(*s),
{
    match s {
        Some(t) => t.clone(),
        None => String::new(),
    }
}

fn belongs_exec(p: &PodRecord, by_node: bool, name: &String) -> (r: bool)
    ensures
        r == belongs(*p, by_node, name@),
{
    let field = if by_node {
        &p.node_name
    } else {
        &p.namespace
    };
    match field {
        Some(n) => *n == *name,
        None => false,
    }
}

/// Sums the figures of the pods of one group into a fresh `Resources`.
fn group_resources(pods: &Vec<PodRecord>, by_node: bool, name: &String) -> (r: Resources)
    ensures
        forall|k: int|
            0 <= k < 4 ==> #[trigger] res_figure(r, k) == wrap(
                group_sum(pods@, by_node, name@, k),
            ),
{
    let mut r = Resources::new();
    let mut j: usize = 0;
    proof {
        lemma_wrap_small(0);
        assert(pods@.take(0) =~= Seq::<PodRecord>::empty());
    }
    while j < pods.len()
        invariant
            j <= pods@.len(),
            forall|k: int|
                0 <= k < 4 ==> #[trigger] res_figure(r, k) == wrap(
                    group_sum(pods@.take(j as int), by_node, name@, k),
                ),
        decreases pods.len() - j,
    {
        let ghost before = r;
        let member = belongs_exec(&pods[j], by_node, name);
        if member {
            add_pod(&mut r, &pods[j]);
        }
        proof {
            assert(pods@.take(j + 1).drop_last() =~= pods@.take(j as int));
            assert(pods@.take(j + 1).last() == pods@[j as int]);
            assert forall|k: int| 0 <= k < 4 implies #[trigger] res_figure(r, k) == wrap(
                group_sum(pods@.take(j + 1), by_node, name@, k),
            ) by {
                let s = group_sum(pods@.take(j as int), by_node, name@, k);
                assert(res_figure(before, k) == wrap(s));
                if member {
                    lemma_wrap_add(s, pod_sum(pods@[j as int], k));
                }
            }
        }
        j = j + 1;
    }
    assert(pods@.take(j as int) =~= pods@);
    r
}

fn build_pod_rows(pods: &Vec<PodRecord>) -> (rows: Vec<Row>)
    ensures
        rows_view(rows@) == pod_rows(pods@),
{
    let mut rows: Vec<Row> = Vec::new();
    let mut i: usize = 0;
    while i < pods.len()
        invariant
            i <= pods@.len(),
            rows_view(rows@) == pod_rows(pods@.take(i as int)),
        decreases pods.len() - i,
    {
        let pod = &pods[i];
        let mut res = Resources::new();
        proof {
            lemma_wrap_small(0);
        }
        add_pod(&mut res, pod);
        let labels = vec![
            string_or_empty(&pod.namespace),
            pod.name.clone(),
            pod.phase.clone(),
            string_or_empty(&pod.node_name),
        ];
        let row = Row { labels, values: resources_values(&res) };
        proof {
            assert(res_figure(res, 0) == wrap(pod_sum(*pod, 0)));
            assert(res_figure(res, 1) == wrap(pod_sum(*pod, 1)));
            assert(res_figure(res, 2) == wrap(pod_sum(*pod, 2)));
            assert(res_figure(res, 3) == wrap(pod_sum(*pod, 3)));
            assert(row@.0 =~= pod_row(*pod).0);
            assert(row@.1 =~= pod_row(*pod).1);
        }
        let ghost before = rows@;
        rows.push(row);
        proof {
            assert(pods@.take(i + 1) =~= pods@.take(i as int).push(*pod));
            assert(rows_view(rows@) =~= rows_view(before).push(row@));
            assert(pod_rows(pods@.take(i + 1)) =~= pod_rows(pods@.take(i as int)).push(pod_row(*pod)));
        }
        i = i + 1;
    }
    assert(pods@.take(i as int) =~= pods@);
    rows
}

fn build_node_rows(nodes: &Vec<NodeRecord>, pods: &Vec<PodRecord>) -> (rows: Vec<Row>)
    ensures
        rows_view(rows@) == node_rows(nodes@, pods@),
{
    let mut rows: Vec<Row> = Vec::new();
    let mut i: usize = 0;
    while i < nodes.len()
        invariant
            i <= nodes@.len(),
            rows_view(rows@) == node_rows(nodes@.take(i as int), pods@),
        decreases nodes.len() - i,
    {
        let node = &nodes[i];
        let mut figures = NodeResources::new();
        match &node.allocatable {
            Some(a) => figures.add_allocatable(a),
            None => {},
        }
        figures.base = group_resources(pods, true, &node.name);
        let values = vec![
            figures.allocatable_cpu.0,
            figures.allocatable_memory.0,
            figures.base.cpu_request.0,
            figures.base.cpu_limit.0,
            figures.base.memory_request.0,
            figures.base.memory_limit.0,
        ];
        let row = Row { labels: one_label(&node.name), values };
        proof {
            assert(res_figure(figures.base, 0) == wrap(group_sum(pods@, true, node.name@, 0)));
            assert(res_figure(figures.base, 1) == wrap(group_sum(pods@, true, node.name@, 1)));
            assert(res_figure(figures.base, 2) == wrap(group_sum(pods@, true, node.name@, 2)));
            assert(res_figure(figures.base, 3) == wrap(group_sum(pods@, true, node.name@, 3)));
            assert(row@.0 =~= node_row(*node, pods@).0);
            assert(row@.1 =~= node_row(*node, pods@).1);
        }
        let ghost before = rows@;
        rows.push(row);
        proof {
            assert(nodes@.take(i + 1) =~= nodes@.take(i as int).push(*node));
            assert(rows_view(rows@) =~= rows_view(before).push(row@));
            assert(node_rows(nodes@.take(i + 1), pods@) =~= node_rows(nodes@.take(i as int), pods@).push(
                node_row(*node, pods@),
            ));
        }
        i = i + 1;
    }
    assert(nodes@.take(i as int) =~= nodes@);
    rows
}

fn build_namespace_rows(namespaces: &Vec<NamespaceRecord>, pods: &Vec<PodRecord>) -> (rows: Vec<Row>)
    ensures
        rows_view(rows@) == namespace_rows(namespaces@, pods@),
{
    let mut rows: Vec<Row> = Vec::new();
    let mut i: usize = 0;
    while i < namespaces.len()
        invariant
            i <= namespaces@.len(),
            rows_view(rows@) == namespace_rows(namespaces@.take(i as int), pods@),
        decreases namespaces.len() - i,
    {
        let ns = &namespaces[i];
        let res = group_resources(pods, false, &ns.name);
        let figures = NamespaceResources {
            cpu_request: res.cpu_request,
            cpu_limit: res.cpu_limit,
            memory_request: res.memory_request,
            memory_limit: res.memory_limit,
        };
        let values = vec![
            figures.cpu_request.0,
            figures.cpu_limit.0,
            figures.memory_request.0,
            figures.memory_limit.0,
        ];
        let row = Row { labels: one_label(&ns.name), values };
        proof {
            assert(res_figure(res, 0) == wrap(group_sum(pods@, false, ns.name@, 0)));
            assert(res_figure(res, 1) == wrap(group_sum(pods@, false, ns.name@, 1)));
            assert(res_figure(res, 2) == wrap(group_sum(pods@, false, ns.name@, 2)));
            assert(res_figure(res, 3) == wrap(group_sum(pods@, false, ns.name@, 3)));
            assert(row@.0 =~= namespace_row(*ns, pods@).0);
            assert(row@.1 =~= namespace_row(*ns, pods@).1);
        }
        let ghost before = rows@;
        rows.push(row);
        proof {
            assert(namespaces@.take(i + 1) =~= namespaces@.take(i as int).push(*ns));
            assert(rows_view(rows@) =~= rows_view(before).push(row@));
            assert(namespace_rows(namespaces@.take(i + 1), pods@) =~= namespace_rows(
                namespaces@.take(i as int),
                pods@,
            ).push(namespace_row(*ns, pods@)));
        }
        i = i + 1;
    }
    assert(namespaces@.take(i as int) =~= namespaces@);
    rows
}

/// The pod rows that a search setting keeps: all without one, else those
/// whose text at its column is its word.
pub open spec fn searched(rows: Seq<RowModel>, search_config: Option<SearchConfig>) -> Seq<RowModel> {
    match search_config {
        None => rows,
        Some(c) => filtered(rows, c.column as int, c.word@),
    }
}

proof fn lemma_filter_fits(kind: ViewMode, rows: Seq<RowModel>, pred: spec_fn(RowModel) -> bool)
    requires
        rows_fit(kind, rows),
    ensures
        rows_fit(kind, rows.filter(pred)),
    decreases rows.len(),
{
    reveal(Seq::filter);
    if rows.len() > 0 {
        let rest = rows.drop_last();
        assert(rows_fit(kind, rest)) by {
            assert forall|i: int| 0 <= i < rest.len() implies row_fits(kind, #[trigger] rest[i]) by {
                assert(rest[i] == rows[i]);
            }
        }
        lemma_filter_fits(kind, rest, pred);
        assert(row_fits(kind, rows[rows.len() - 1]));
    }
}

/// Sorts the rows if a sort setting is given, and lays out the table.
fn arrange_and_build(rows: Vec<Row>, kind: ViewMode, sort_config: Option<SortConfig>) -> (r: Vec<
    Vec<String>,
>)
    requires
        rows_fit(kind, rows_view(rows@)),
    ensures
        exists|sorted: Seq<RowModel>|
            arranged(sorted, rows_view(rows@), kind, sort_config) && table_texts(r@) == table_text(
                kind,
                sorted,
            ),
        table_texts(r@).last() == row_text(kind, total_row(kind, rows_view(rows@))),
{
    let ghost given = rows_view(rows@);
    let mut rows = rows;
    match sort_config {
        Some(c) => sort_rows(&mut rows, kind, c.column),
        None => {},
    }
    let r = build_table(kind, &rows);
    assert(arranged(rows_view(rows@), given, kind, sort_config));
    proof {
        if sort_config is None {
            assert(rows_view(rows@) == given);
        }
        crate::laws::lemma_total_order_independent(kind, rows_view(rows@), given);
        assert(total_row(kind, rows_view(rows@)) == total_row(kind, given));
    }
    r
}

/// The node table: one row per node in the order given, with its
/// allocatable capacity and what its pods request and limit, sorted as the
/// setting says, then the `TOTAL` row.
pub fn handle_node_command(
    nodes: &Vec<NodeRecord>,
    pods: &Vec<PodRecord>,
    sort_config: Option<SortConfig>,
) -> (r: Vec<Vec<String>>)
    ensures
        exists|sorted: Seq<RowModel>|
            arranged(sorted, node_rows(nodes@, pods@), ViewMode::Node, sort_config)
                && table_texts(r@) == table_text(ViewMode::Node, sorted),
        table_texts(r@).last() == row_text(
            ViewMode::Node,
            total_row(ViewMode::Node, node_rows(nodes@, pods@)),
        ),
{
    let rows = build_node_rows(nodes, pods);
    assert(rows_fit(ViewMode::Node, rows_view(rows@))) by {
        assert forall|i: int| 0 <= i < rows_view(rows@).len() implies row_fits(
            ViewMode::Node,
            #[trigger] rows_view(rows@)[i],
        ) by {
            assert(rows_view(rows@)[i] == node_row(nodes@[i], pods@));
        }
    }
    arrange_and_build(rows, ViewMode::Node, sort_config)
}

/// The pod table: one row per pod in the order given that the search
/// setting keeps, sorted as the setting says, then the `TOTAL` row of the
/// kept pods.
pub fn handle_pod_command(
    pods: &Vec<PodRecord>,
    search_config: Option<SearchConfig>,
    sort_config: Option<SortConfig>,
) -> (r: Vec<Vec<String>>)
    ensures
        exists|sorted: Seq<RowModel>|
            arranged(sorted, searched(pod_rows(pods@), search_config), ViewMode::Pod, sort_config)
                && table_texts(r@) == table_text(ViewMode::Pod, sorted),
        table_texts(r@).last() == row_text(
            ViewMode::Pod,
            total_row(ViewMode::Pod, searched(pod_rows(pods@), search_config)),
        ),
{
    let rows = build_pod_rows(pods);
    assert(rows_fit(ViewMode::Pod, rows_view(rows@))) by {
        assert forall|i: int| 0 <= i < rows_view(rows@).len() implies row_fits(
            ViewMode::Pod,
            #[trigger] rows_view(rows@)[i],
        ) by {
            assert(rows_view(rows@)[i] == pod_row(pods@[i]));
        }
    }
    let rows = match search_config {
        Some(c) => {
            let kept = filter_rows(rows, c.column, c.get_word());
            proof {
                let pred = |m: RowModel| keeps(m, c.column as int, c.word@);
                lemma_filter_fits(ViewMode::Pod, pod_rows(pods@), pred);
            }
            kept
        },
        None => rows,
    };
    arrange_and_build(rows, ViewMode::Pod, sort_config)
}

/// The namespace table: one row per namespace in the order given, with what
/// its pods request and limit, sorted as the setting says, then the `TOTAL`
/// row.
pub fn handle_namespace_command(
    namespaces: &Vec<NamespaceRecord>,
    pods: &Vec<PodRecord>,
    sort_config: Option<SortConfig>,
) -> (r: Vec<Vec<String>>)
    ensures
        exists|sorted: Seq<RowModel>|
            arranged(sorted, namespace_rows(namespaces@, pods@), ViewMode::Namespace, sort_config)
                && table_texts(r@) == table_text(ViewMode::Namespace, sorted),
        table_texts(r@).last() == row_text(
            ViewMode::Namespace,
            total_row(ViewMode::Namespace, namespace_rows(namespaces@, pods@)),
        ),
{
    let rows = build_namespace_rows(namespaces, pods);
    assert(rows_fit(ViewMode::Namespace, rows_view(rows@))) by {
        assert forall|i: int| 0 <= i < rows_view(rows@).len() implies row_fits(
            ViewMode::Namespace,
            #[trigger] rows_view(rows@)[i],
        ) by {
            assert(rows_view(rows@)[i] == namespace_row(namespaces@[i], pods@));
        }
    }
    arrange_and_build(rows, ViewMode::Namespace, sort_config)
}

} // verus!
