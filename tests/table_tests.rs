use kube_rm::{
    build_table, filter_rows, handle_namespace_command, handle_node_command, handle_pod_command,
    sort_rows,
};
use kube_rm::{
    NamespaceRecord, NamespaceResources, NodeRecord, NodeResources, PodRecord, QuantityEntry,
    ResourceRequirements, ResourceValue, Resources, Row, SearchConfig, SortConfig, ViewMode,
};

fn entry(resource: &str, quantity: &str) -> QuantityEntry {
    QuantityEntry { resource: resource.to_string(), quantity: quantity.to_string() }
}

fn container(cpu_req: &str, cpu_lim: &str, mem_req: &str, mem_lim: &str) -> ResourceRequirements {
    let mut requests = Vec::new();
    if !cpu_req.is_empty() {
        requests.push(entry("cpu", cpu_req));
    }
    if !mem_req.is_empty() {
        requests.push(entry("memory", mem_req));
    }
    let mut limits = Vec::new();
    if !cpu_lim.is_empty() {
        limits.push(entry("cpu", cpu_lim));
    }
    if !mem_lim.is_empty() {
        limits.push(entry("memory", mem_lim));
    }
    ResourceRequirements { requests: Some(requests), limits: Some(limits) }
}

fn pod(ns: &str, name: &str, node: &str, containers: Vec<ResourceRequirements>) -> PodRecord {
    PodRecord {
        namespace: Some(ns.to_string()),
        name: name.to_string(),
        phase: "Running".to_string(),
        node_name: Some(node.to_string()),
        containers,
    }
}

fn node(name: &str, cpu: &str, memory: &str) -> NodeRecord {
    NodeRecord {
        name: name.to_string(),
        allocatable: Some(vec![entry("cpu", cpu), entry("memory", memory)]),
    }
}

fn ns(name: &str) -> NamespaceRecord {
    NamespaceRecord { name: name.to_string() }
}

fn row(labels: &[&str], values: &[i64]) -> Row {
    Row { labels: labels.iter().map(|s| s.to_string()).collect(), values: values.to_vec() }
}

fn strings(cells: &[&str]) -> Vec<String> {
    cells.iter().map(|s| s.to_string()).collect()
}

#[test]
fn resources_add_is_fieldwise() {
    let mut a = Resources::new();
    let b = Resources {
        cpu_request: ResourceValue(250),
        cpu_limit: ResourceValue(500),
        memory_request: ResourceValue(1024),
        memory_limit: ResourceValue(2048),
    };
    a.add(&b);
    a.add(&b);
    assert_eq!(a.cpu_request.0, 500);
    assert_eq!(a.cpu_limit.0, 1000);
    assert_eq!(a.memory_request.0, 2048);
    assert_eq!(a.memory_limit.0, 4096);
}

#[test]
fn resources_add_wraps_on_overflow() {
    let mut a = Resources::new();
    a.cpu_request = ResourceValue(i64::MAX);
    let mut b = Resources::new();
    b.cpu_request = ResourceValue(1);
    a.add(&b);
    assert_eq!(a.cpu_request.0, i64::MIN);
}

#[test]
fn add_container_resources_swallows_bad_quantities() {
    let mut r = Resources::new();
    r.add_container_resources(&container("250m", "junk", "1Mi", ""));
    r.add_container_resources(&ResourceRequirements { requests: None, limits: None });
    assert_eq!(r.cpu_request.0, 250);
    assert_eq!(r.cpu_limit.0, 0);
    assert_eq!(r.memory_request.0, 1048576);
    assert_eq!(r.memory_limit.0, 0);
}

#[test]
fn node_and_namespace_resources_accumulate() {
    let mut n = NodeResources::new();
    n.add_allocatable(&vec![entry("cpu", "4"), entry("memory", "8Gi")]);
    n.add_container_resources(&container("1", "2", "1Gi", "2Gi"));
    let mut total = NodeResources::new();
    total.add(&n);
    total.add(&n);
    assert_eq!(total.allocatable_cpu.0, 8000);
    assert_eq!(total.allocatable_memory.0, 16 * 1073741824);
    assert_eq!(total.base.cpu_limit.0, 4000);
    let mut s = NamespaceResources::new();
    s.add_container_resources(&container("100m", "", "", "1Ki"));
    let mut t = NamespaceResources::new();
    t.add(&s);
    assert_eq!(t.cpu_request.0, 100);
    assert_eq!(t.memory_limit.0, 1024);
}

#[test]
fn sort_column_zero_ascends() {
    let mut rows = vec![row(&["b"], &[1, 0, 0, 0]), row(&["a"], &[2, 0, 0, 0]), row(&["c"], &[3, 0, 0, 0])];
    sort_rows(&mut rows, ViewMode::Namespace, 0);
    let names: Vec<&str> = rows.iter().map(|r| r.labels[0].as_str()).collect();
    assert_eq!(names, vec!["a", "b", "c"]);
}

#[test]
fn sort_resource_column_descends() {
    let mut rows = vec![row(&["b"], &[1, 0, 0, 0]), row(&["a"], &[3, 0, 0, 0]), row(&["c"], &[2, 0, 0, 0])];
    sort_rows(&mut rows, ViewMode::Namespace, 1);
    let values: Vec<i64> = rows.iter().map(|r| r.values[0]).collect();
    assert_eq!(values, vec![3, 2, 1]);
}

#[test]
fn sort_pod_string_columns_ascend() {
    let mut rows = vec![
        row(&["ns", "p1", "Running", "node-b"], &[0, 0, 0, 0]),
        row(&["ns", "p2", "Pending", "node-a"], &[0, 0, 0, 0]),
    ];
    sort_rows(&mut rows, ViewMode::Pod, 3);
    assert_eq!(rows[0].labels[1], "p2");
    sort_rows(&mut rows, ViewMode::Pod, 2);
    assert_eq!(rows[0].labels[2], "Pending");
    sort_rows(&mut rows, ViewMode::Pod, 1);
    assert_eq!(rows[0].labels[1], "p1");
}

#[test]
fn sort_keeps_equal_keys_in_order_and_ignores_unknown_columns() {
    let mut rows = vec![row(&["x"], &[5, 0, 0, 0]), row(&["y"], &[5, 0, 0, 0]), row(&["a"], &[1, 0, 0, 0])];
    sort_rows(&mut rows, ViewMode::Namespace, 1);
    let names: Vec<&str> = rows.iter().map(|r| r.labels[0].as_str()).collect();
    assert_eq!(names, vec!["x", "y", "a"]);
    sort_rows(&mut rows, ViewMode::Namespace, 9);
    let names: Vec<&str> = rows.iter().map(|r| r.labels[0].as_str()).collect();
    assert_eq!(names, vec!["x", "y", "a"]);
}

#[test]
fn sort_text_is_byte_order() {
    let mut rows = vec![row(&["b"], &[0, 0, 0, 0]), row(&["B"], &[0, 0, 0, 0]), row(&["é"], &[0, 0, 0, 0])];
    sort_rows(&mut rows, ViewMode::Namespace, 0);
    let names: Vec<&str> = rows.iter().map(|r| r.labels[0].as_str()).collect();
    assert_eq!(names, vec!["B", "b", "é"]);
}

#[test]
fn filter_keeps_exact_matches_only() {
    let rows = vec![
        row(&["default", "a", "Running", "n1"], &[1, 0, 0, 0]),
        row(&["default-2", "b", "Running", "n1"], &[2, 0, 0, 0]),
        row(&["Default", "c", "Running", "n2"], &[4, 0, 0, 0]),
        row(&["default", "d", "Running", "n2"], &[8, 0, 0, 0]),
    ];
    let kept = filter_rows(rows, 0, "default");
    let names: Vec<&str> = kept.iter().map(|r| r.labels[1].as_str()).collect();
    assert_eq!(names, vec!["a", "d"]);
    let table = build_table(ViewMode::Pod, &kept);
    assert_eq!(table.last().unwrap()[4], "9m");
}

#[test]
fn filter_sentinel_keeps_everything() {
    let rows = vec![row(&["a", "a", "", ""], &[1, 0, 0, 0]), row(&["b", "b", "", ""], &[2, 0, 0, 0])];
    let kept = filter_rows(rows, kube_rm::NO_FILTER, "zzz");
    assert_eq!(kept.len(), 2);
}

#[test]
fn totals_do_not_depend_on_row_order() {
    let a = vec![row(&["a"], &[1000, 1, 1024, 1]), row(&["b"], &[250, 2, 2048, 2]), row(&["c"], &[5, 3, 0, 3])];
    let b = vec![row(&["c"], &[5, 3, 0, 3]), row(&["a"], &[1000, 1, 1024, 1]), row(&["b"], &[250, 2, 2048, 2])];
    let ta = build_table(ViewMode::Namespace, &a);
    let tb = build_table(ViewMode::Namespace, &b);
    assert_eq!(ta.last(), tb.last());
    assert_eq!(ta.last().unwrap(), &strings(&["TOTAL", "1.3", "6m", "3Ki", "6B"]));
}

#[test]
fn table_has_header_rows_and_total() {
    let rows = vec![row(&["n1"], &[4000, 8589934592, 1500, 2000, 1073741824, 0])];
    let t = build_table(ViewMode::Node, &rows);
    assert_eq!(t.len(), 3);
    assert_eq!(
        t[0],
        strings(&["Node Name", "CPU Alloc.", "Memory Alloc.", "CPU Req.", "CPU Lim.", "Mem Req.", "Mem Lim."])
    );
    assert_eq!(t[1], strings(&["n1", "4", "8Gi", "1.5", "2", "1Gi", ""]));
    assert_eq!(t[2], strings(&["TOTAL", "4", "8Gi", "1.5", "2", "1Gi", ""]));
}

#[test]
fn empty_table_has_header_and_zero_total() {
    let t = build_table(ViewMode::Pod, &Vec::new());
    assert_eq!(t.len(), 2);
    assert_eq!(t[1], strings(&["TOTAL", "", "", "", "", "", "", ""]));
}

#[test]
fn namespace_scenario_three_pods() {
    let pods = vec![
        pod("team", "a", "n1", vec![container("250m", "", "", "")]),
        pod("team", "b", "n1", vec![container("1", "", "", "")]),
        pod("team", "c", "n1", vec![container("", "", "", "")]),
    ];
    let t = handle_namespace_command(&vec![ns("team")], &pods, Some(SortConfig::new(0)));
    assert_eq!(t[1], strings(&["team", "1.2", "", "", ""]));
    assert_eq!(t[2], strings(&["TOTAL", "1.2", "", "", ""]));
}

#[test]
fn namespace_rows_follow_the_namespace_list() {
    let pods = vec![
        pod("b", "p1", "n1", vec![container("1", "2", "1Mi", "2Mi")]),
        PodRecord {
            namespace: None,
            name: "stray".to_string(),
            phase: "Running".to_string(),
            node_name: None,
            containers: vec![container("5", "", "", "")],
        },
    ];
    let t = handle_namespace_command(&vec![ns("a"), ns("b")], &pods, None);
    assert_eq!(t[1], strings(&["a", "", "", "", ""]));
    assert_eq!(t[2], strings(&["b", "1", "2", "1Mi", "2Mi"]));
    assert_eq!(t[3], strings(&["TOTAL", "1", "2", "1Mi", "2Mi"]));
}

#[test]
fn node_without_pods_still_has_a_row() {
    let pods = vec![pod("ns", "p", "busy", vec![container("500m", "1", "256Mi", "512Mi")])];
    let nodes = vec![node("busy", "4", "16Gi"), node("idle", "2", "8Gi")];
    let t = handle_node_command(&nodes, &pods, None);
    assert_eq!(t[1], strings(&["busy", "4", "16Gi", "500m", "1", "256Mi", "512Mi"]));
    assert_eq!(t[2], strings(&["idle", "2", "8Gi", "", "", "", ""]));
    assert_eq!(t[3], strings(&["TOTAL", "6", "24Gi", "500m", "1", "256Mi", "512Mi"]));
}

#[test]
fn node_view_sorted_by_allocatable_cpu() {
    let nodes = vec![node("small", "2", "8Gi"), node("large", "8", "8Gi"), node("mid", "4", "8Gi")];
    let t = handle_node_command(&nodes, &Vec::new(), Some(SortConfig::new(1)));
    let names: Vec<&str> = t.iter().map(|r| r[0].as_str()).collect();
    assert_eq!(names, vec!["Node Name", "large", "mid", "small", "TOTAL"]);
    assert_eq!(t[4][1], "14");
}

#[test]
fn pod_view_filters_then_totals() {
    let pods = vec![
        pod("a", "p1", "n1", vec![container("100m", "", "", ""), container("200m", "", "", "")]),
        pod("a", "p2", "n2", vec![container("1", "", "", "")]),
        pod("b", "p3", "n1", vec![container("2", "", "", "")]),
    ];
    let t = handle_pod_command(&pods, Some(SearchConfig::new(3, "n1")), Some(SortConfig::new(4)));
    assert_eq!(t.len(), 4);
    assert_eq!(t[1], strings(&["b", "p3", "Running", "n1", "2", "", "", ""]));
    assert_eq!(t[2], strings(&["a", "p1", "Running", "n1", "300m", "", "", ""]));
    assert_eq!(t[3], strings(&["TOTAL", "", "", "", "2.3", "", "", ""]));
    let all = handle_pod_command(&pods, Some(SearchConfig::new(kube_rm::NO_FILTER, "")), None);
    assert_eq!(all.len(), 5);
    assert_eq!(all[4][4], "3.3");
}
