use presemd::diagram::parse_diagram;

#[test]
fn edge_creates_nodes() {
    let (nodes, edges) = parse_diagram("- A -> B: hello");
    assert_eq!(nodes.len(), 2);
    assert_eq!(nodes[0].name, "A");
    assert_eq!(nodes[0].label, "A");
    assert_eq!(nodes[1].name, "B");
    assert_eq!(edges.len(), 1);
    assert_eq!(edges[0].from, "A");
    assert_eq!(edges[0].to, "B");
    assert_eq!(edges[0].label, "hello");
}

#[test]
fn definition_relabels_in_place() {
    let src = "A -> B\nC\nA: Alpha (icon: db, pos: 1,1)\n* B: Beta\nD: Delta";
    let (nodes, edges) = parse_diagram(src);
    let names: Vec<&str> = nodes.iter().map(|n| n.name.as_str()).collect();
    assert_eq!(names, vec!["A", "B", "C", "D"]);
    assert_eq!(nodes[0].label, "Alpha");
    assert_eq!(nodes[1].label, "Beta");
    assert_eq!(nodes[2].label, "C");
    assert_eq!(edges.len(), 1);
    assert_eq!(edges[0].label, "");
}

#[test]
fn parens_without_space_stay() {
    let (nodes, _) = parse_diagram("f(x)");
    assert_eq!(nodes[0].name, "f(x)");
    let (nodes, _) = parse_diagram("Server (icon: x)");
    assert_eq!(nodes[0].name, "Server");
}

#[test]
fn empty_diagram() {
    let (nodes, edges) = parse_diagram("\n  \n\n");
    assert!(nodes.is_empty());
    assert!(edges.is_empty());
}
