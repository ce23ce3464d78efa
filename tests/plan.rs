use parquet_viewer::plan_tree::{build_plan_tree, PlanNode, PlanSource, TreeBuilder};

fn op(name: &str, children: Vec<PlanSource>) -> PlanSource {
    PlanSource { name: name.to_string(), label: format!("{}: details", name), metrics: None, children }
}

fn shape(n: &PlanNode) -> String {
    let inner: Vec<String> = n.children.iter().map(shape).collect();
    format!("{}#{}({})", n.name, n.id, inner.join(","))
}

#[test]
fn single_operator_is_root() {
    let root = build_plan_tree(&op("Scan", vec![]));
    assert_eq!(root.id, 0);
    assert_eq!(root.name, "Scan");
    assert_eq!(root.label, "Scan: details");
    assert!(root.children.is_empty());
}

#[test]
fn ids_are_preorder_and_children_keep_order() {
    let plan = op(
        "Join",
        vec![op("Filter", vec![op("ScanA", vec![])]), op("ScanB", vec![]), op("Sort", vec![op("ScanC", vec![])])],
    );
    let root = build_plan_tree(&plan);
    assert_eq!(shape(&root), "Join#0(Filter#1(ScanA#2()),ScanB#3(),Sort#4(ScanC#5()))");
}

#[test]
fn metrics_are_kept() {
    let mut plan = op("Limit", vec![op("Scan", vec![])]);
    plan.children[0].metrics = Some("output_rows=10".to_string());
    let root = build_plan_tree(&plan);
    assert_eq!(root.metrics, None);
    assert_eq!(root.children[0].metrics, Some("output_rows=10".to_string()));
}

#[test]
fn repeated_conversion_is_identical() {
    let plan = op("A", vec![op("B", vec![]), op("C", vec![op("D", vec![])])]);
    assert_eq!(shape(&build_plan_tree(&plan)), shape(&build_plan_tree(&plan)));
}

#[test]
fn builder_attaches_to_parent_on_leave() {
    let mut b = TreeBuilder::new();
    b.pre_visit("P".to_string(), "p".to_string(), None);
    b.pre_visit("C".to_string(), "c".to_string(), None);
    b.post_visit();
    b.post_visit();
    let root = b.finish().unwrap();
    assert_eq!(shape(&root), "P#0(C#1())");
}

#[test]
fn unfinished_walk_has_no_tree() {
    let mut b = TreeBuilder::new();
    assert!(b.finish().is_none());
    b = TreeBuilder::new();
    b.pre_visit("P".to_string(), "p".to_string(), None);
    b.pre_visit("C".to_string(), "c".to_string(), None);
    assert!(b.finish().is_none());
}
