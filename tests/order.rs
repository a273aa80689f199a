use ergol::order::{order, resolve_order};
use ergol::schema::{Column, Element, Enum, Table, Ty};
use ergol::snapshot::merge;

fn table(name: &str, refs: &[&str]) -> Table {
    let mut t = Table::new(name);
    t.columns.push(Column::new("id", Ty::Id, false));
    for r in refs {
        t.columns.push(Column::new(&format!("{}_id", r), Ty::Reference(r.to_string()), false));
    }
    t
}

fn names(ts: &[Table]) -> Vec<String> {
    ts.iter().map(|t| t.name.clone()).collect()
}

#[test]
fn dependency_comes_first() {
    let sorted = order(vec![table("project", &["user"]), table("user", &[])]);
    assert_eq!(names(&sorted), vec!["user", "project"]);
}

#[test]
fn chain_is_sorted() {
    let sorted = order(vec![table("c", &["b"]), table("b", &["a"]), table("a", &[])]);
    assert_eq!(names(&sorted), vec!["a", "b", "c"]);
}

#[test]
fn independent_tables_keep_their_order() {
    let sorted = order(vec![table("x", &[]), table("y", &[]), table("z", &["x"])]);
    assert_eq!(names(&sorted), vec!["x", "y", "z"]);
}

#[test]
fn each_table_after_its_dependencies() {
    let input = vec![
        table("task", &["project", "user"]),
        table("project", &["user", "team"]),
        table("team", &[]),
        table("user", &["team"]),
    ];
    let sorted = order(input);
    assert_eq!(sorted.len(), 4);
    for (i, t) in sorted.iter().enumerate() {
        for d in t.dependencies() {
            let j = sorted.iter().position(|u| u.name == d).unwrap();
            assert!(j < i);
        }
    }
}

#[test]
fn cycle_falls_back_to_input() {
    let input = vec![table("a", &["b"]), table("b", &["a"]), table("c", &[])];
    assert!(resolve_order(&input).is_none());
    assert_eq!(names(&order(input)), vec!["a", "b", "c"]);
}

#[test]
fn missing_reference_falls_back_to_input() {
    let input = vec![table("project", &["ghost"]), table("user", &[])];
    assert!(resolve_order(&input).is_none());
    assert_eq!(names(&order(input)), vec!["project", "user"]);
}

#[test]
fn self_reference_falls_back_to_input() {
    let input = vec![table("user", &[]), table("node", &["node"])];
    assert_eq!(names(&order(input)), vec!["user", "node"]);
}

#[test]
fn repeated_name_falls_back_to_input() {
    let input = vec![table("b", &["a"]), table("a", &[]), table("a", &[])];
    assert!(resolve_order(&input).is_none());
    assert_eq!(names(&order(input)), vec!["b", "a", "a"]);
}

#[test]
fn empty_input_orders() {
    assert!(order(vec![]).is_empty());
    assert_eq!(resolve_order(&vec![]), Some(vec![]));
}

#[test]
fn merge_splits_and_orders() {
    let role = Enum { name: "role".to_string(), variants: vec!["admin".to_string()] };
    let mood = Enum { name: "mood".to_string(), variants: vec!["ok".to_string()] };
    let elements = vec![
        Element::Table(table("project", &["user"])),
        Element::Enum(role.clone()),
        Element::Table(table("user", &[])),
        Element::Enum(mood.clone()),
    ];
    let (enums, tables) = merge(&elements);
    assert_eq!(enums, vec![role, mood]);
    assert_eq!(names(&tables), vec!["user", "project"]);
    let (no_enums, no_tables) = merge(&vec![]);
    assert!(no_enums.is_empty() && no_tables.is_empty());
}

#[test]
fn ordered_input_is_kept() {
    let input = vec![table("a", &[]), table("c", &["a"]), table("b", &["c", "a"])];
    assert_eq!(names(&order(input)), vec!["a", "c", "b"]);
}

#[test]
fn ordering_twice_changes_nothing() {
    let input = vec![
        table("task", &["project"]),
        table("z", &[]),
        table("project", &["user"]),
        table("user", &[]),
    ];
    let once = order(input);
    assert_eq!(names(&once), vec!["z", "user", "project", "task"]);
    let twice = order(once.clone());
    assert_eq!(twice, once);
}
