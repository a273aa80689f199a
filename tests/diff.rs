use ergol::diff::{diff, diff_enum, diff_table, Diff, DiffElement};
use ergol::schema::{Column, Element, Enum, Table, Ty};

fn table(name: &str, columns: Vec<Column>) -> Table {
    Table { name: name.to_string(), columns }
}

fn enumeration(name: &str, variants: &[&str]) -> Enum {
    Enum { name: name.to_string(), variants: variants.iter().map(|v| v.to_string()).collect() }
}

fn users() -> Table {
    table(
        "users",
        vec![Column::new("id", Ty::Id, false), Column::new("name", Ty::String, false)],
    )
}

#[test]
fn create_table_scenario() {
    let d = diff((vec![], vec![]), (vec![], vec![users()]));
    assert_eq!(d.0, vec![DiffElement::Create(Element::Table(users()))]);
    assert_eq!(d.hint(), "CREATE TABLE users (id SERIAL PRIMARY KEY, name VARCHAR NOT NULL);");
    assert_eq!(d.hint_revert(), "DROP TABLE users CASCADE;");
}

#[test]
fn add_column_scenario() {
    let mut after = users();
    after.columns.push(Column::new("age", Ty::I32, false));
    let d = diff((vec![], vec![users()]), (vec![], vec![after]));
    let age = Column::new("age", Ty::I32, false);
    assert_eq!(d.0, vec![DiffElement::CreateColumn("users".to_string(), age.clone())]);
    assert_eq!(d.0[0].inverse(), DiffElement::DropColumn("users".to_string(), age));
    assert_eq!(d.hint_revert(), "ALTER TABLE \"users\" DROP COLUMN \"age\";");
    assert!(d.hint().starts_with("ALTER TABLE \"users\" ADD \"age\" INT NOT NULL DEFAULT /*"));
}

#[test]
fn add_enum_variant_scenario() {
    let before = enumeration("role", &["admin", "write"]);
    let after = enumeration("role", &["admin", "write", "read"]);
    let d = diff((vec![before], vec![]), (vec![after], vec![]));
    assert_eq!(d.0, vec![DiffElement::CreateVariant("role".to_string(), "read".to_string())]);
    assert_eq!(
        d.0.iter().map(|op| op.inverse()).collect::<Vec<_>>(),
        vec![DiffElement::DropVariant("role".to_string(), "read".to_string())]
    );
    assert_eq!(d.hint(), "ALTER TYPE \"role\" ADD VALUE 'read';");
    assert_eq!(d.hint_revert(), "ALTER TYPE \"role\" DROP VALUE 'read';");
}

#[test]
fn changed_column_type_needs_manual_migration() {
    let before = table("t", vec![Column::new("x", Ty::I32, false)]);
    let after = table("t", vec![Column::new("x", Ty::String, false)]);
    let d = diff((vec![], vec![before]), (vec![], vec![after]));
    assert!(!d.is_empty());
    assert!(d.needs_manual_migration());
    assert_eq!(
        d.0,
        vec![DiffElement::AlterColumn(
            "t".to_string(),
            Column::new("x", Ty::I32, false),
            Column::new("x", Ty::String, false),
        )]
    );
    let hint = d.hint();
    assert!(hint.contains("manual migration required"));
    assert!(hint.contains("x INT NOT NULL becomes x VARCHAR NOT NULL"));
    assert!(d.hint_revert().contains("x VARCHAR NOT NULL becomes x INT NOT NULL"));
}

#[test]
fn changed_uniqueness_needs_manual_migration() {
    let before = table("t", vec![Column::new("x", Ty::I32, false)]);
    let after = table("t", vec![Column::new("x", Ty::I32, true)]);
    let ops = diff_table(&before, &after);
    assert_eq!(ops.len(), 1);
    assert!(matches!(ops[0], DiffElement::AlterColumn(_, _, _)));
}

#[test]
fn diff_of_same_state_is_empty() {
    let state = || {
        (
            vec![enumeration("role", &["admin", "write"]), enumeration("mood", &["ok"])],
            vec![
                users(),
                table(
                    "project",
                    vec![
                        Column::new("id", Ty::Id, false),
                        Column::new("owner", Ty::Reference("users".to_string()), false),
                    ],
                ),
            ],
        )
    };
    let d = diff(state(), state());
    assert!(d.is_empty());
    assert_eq!(d.hint(), "");
    assert!(!d.needs_manual_migration());
    assert!(diff((vec![], vec![]), (vec![], vec![])).is_empty());
}

#[test]
fn revert_of_each_kind_is_forward_of_inverse() {
    let c = Column::new("age", Ty::Option(Box::new(Ty::I32)), false);
    let ops = vec![
        DiffElement::Create(Element::Table(users())),
        DiffElement::Drop(Element::Table(users())),
        DiffElement::Create(Element::Enum(enumeration("role", &["a", "b"]))),
        DiffElement::Drop(Element::Enum(enumeration("role", &["a", "b"]))),
        DiffElement::CreateColumn("users".to_string(), c.clone()),
        DiffElement::DropColumn("users".to_string(), c.clone()),
        DiffElement::CreateVariant("role".to_string(), "c".to_string()),
        DiffElement::DropVariant("role".to_string(), "c".to_string()),
        DiffElement::AlterColumn("users".to_string(), c.clone(), Column::new("age", Ty::I64, false)),
    ];
    for op in &ops {
        assert_eq!(op.hint_revert(), op.inverse().hint());
        assert_eq!(op.inverse().inverse(), *op);
    }
    assert_eq!(
        DiffElement::CreateColumn("users".to_string(), c.clone()).hint_revert(),
        DiffElement::DropColumn("users".to_string(), c.clone()).hint()
    );
    assert_eq!(
        DiffElement::DropColumn("users".to_string(), c.clone()).hint_revert(),
        "ALTER TABLE \"users\" ADD \"age\" INT DEFAULT /* TODO default value */;"
    );
    assert_eq!(
        DiffElement::Drop(Element::Enum(enumeration("role", &["a", "b"]))).hint_revert(),
        "CREATE TYPE role AS ENUM ('a', 'b');"
    );
    assert_eq!(
        DiffElement::Drop(Element::Table(users())).hint_revert(),
        users().create_table()
    );
}

#[test]
fn enum_variant_diff_by_presence() {
    let before = enumeration("role", &["admin", "write", "old"]);
    let after = enumeration("role", &["new", "write", "admin"]);
    let ops = diff_enum(&before, &after);
    assert_eq!(
        ops,
        vec![
            DiffElement::DropVariant("role".to_string(), "old".to_string()),
            DiffElement::CreateVariant("role".to_string(), "new".to_string()),
        ]
    );
    let reordered = enumeration("role", &["write", "admin"]);
    assert!(diff_enum(&enumeration("role", &["admin", "write"]), &reordered).is_empty());
}

#[test]
fn enum_changes_come_before_table_changes() {
    let before = (
        vec![enumeration("gone", &["a"]), enumeration("role", &["a"])],
        vec![users(), table("old", vec![Column::new("id", Ty::Id, false)])],
    );
    let after = (
        vec![enumeration("role", &["a", "b"]), enumeration("fresh", &["x"])],
        vec![table("fresh", vec![Column::new("id", Ty::Id, false)]), users()],
    );
    let d = diff(before, after);
    assert_eq!(
        d.0,
        vec![
            DiffElement::Drop(Element::Enum(enumeration("gone", &["a"]))),
            DiffElement::CreateVariant("role".to_string(), "b".to_string()),
            DiffElement::Create(Element::Enum(enumeration("fresh", &["x"]))),
            DiffElement::Drop(Element::Table(table("old", vec![Column::new("id", Ty::Id, false)]))),
            DiffElement::Create(Element::Table(table(
                "fresh",
                vec![Column::new("id", Ty::Id, false)]
            ))),
        ]
    );
    assert_eq!(
        d.hint(),
        "DROP TYPE gone;\nALTER TYPE \"role\" ADD VALUE 'b';\nCREATE TYPE fresh AS ENUM ('x');\nDROP TABLE old CASCADE;\nCREATE TABLE fresh (id SERIAL PRIMARY KEY);"
    );
    assert_eq!(
        d.hint_revert(),
        "CREATE TYPE gone AS ENUM ('a');\nALTER TYPE \"role\" DROP VALUE 'b';\nDROP TYPE fresh;\nCREATE TABLE old (id SERIAL PRIMARY KEY);\nDROP TABLE fresh CASCADE;"
    );
}

#[test]
fn column_drops_come_before_creates() {
    let before = table(
        "t",
        vec![Column::new("id", Ty::Id, false), Column::new("a", Ty::Bool, false)],
    );
    let after = table(
        "t",
        vec![Column::new("b", Ty::Uuid, false), Column::new("id", Ty::Id, false)],
    );
    assert_eq!(
        diff_table(&before, &after),
        vec![
            DiffElement::DropColumn("t".to_string(), Column::new("a", Ty::Bool, false)),
            DiffElement::CreateColumn("t".to_string(), Column::new("b", Ty::Uuid, false)),
        ]
    );
}

#[test]
fn reordered_columns_give_no_operation() {
    let before = table(
        "t",
        vec![Column::new("id", Ty::Id, false), Column::new("a", Ty::Bool, false)],
    );
    let after = table(
        "t",
        vec![Column::new("a", Ty::Bool, false), Column::new("id", Ty::Id, false)],
    );
    assert_ne!(before, after);
    assert!(diff_table(&before, &after).is_empty());
}

#[test]
fn order_keeps_the_diff() {
    let d = diff((vec![], vec![]), (vec![], vec![users()]));
    let ordered: Diff = d.order();
    assert_eq!(ordered.0, vec![DiffElement::Create(Element::Table(users()))]);
}

#[test]
fn drops_render_without_renderable_types() {
    let odd = table("odd", vec![Column::new("id", Ty::Option(Box::new(Ty::Id)), false)]);
    assert_eq!(DiffElement::Drop(Element::Table(odd.clone())).hint(), "DROP TABLE odd CASCADE;");
    let c = Column::new("x", Ty::Option(Box::new(Ty::Id)), false);
    assert_eq!(
        DiffElement::DropColumn("odd".to_string(), c).hint(),
        "ALTER TABLE \"odd\" DROP COLUMN \"x\";"
    );
    let d = diff((vec![], vec![odd]), (vec![], vec![]));
    assert!(!d.is_renderable());
    assert_eq!(d.hint(), "DROP TABLE odd CASCADE;");
}
