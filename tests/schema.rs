use ergol::schema::{Column, Element, Enum, Table, Ty};

fn users() -> Table {
    Table {
        name: "users".to_string(),
        columns: vec![
            Column::new("id", Ty::Id, false),
            Column::new("name", Ty::String, false),
        ],
    }
}

#[test]
fn plain_types_end_with_not_null() {
    assert_eq!(Ty::I32.to_postgres(), "INT NOT NULL");
    assert_eq!(Ty::I64.to_postgres(), "BIGINT NOT NULL");
    assert_eq!(Ty::Bool.to_postgres(), "BOOL NOT NULL");
    assert_eq!(Ty::String.to_postgres(), "VARCHAR NOT NULL");
    assert_eq!(Ty::Json.to_postgres(), "JSON NOT NULL");
    assert_eq!(Ty::BitVec.to_postgres(), "VARBIT NOT NULL");
    assert_eq!(Ty::NaiveDateTime.to_postgres(), "TIMESTAMP NOT NULL");
    assert_eq!(Ty::DateTimeUtc.to_postgres(), "TIMESTAMP WITH TIME ZONE NOT NULL");
    assert_eq!(Ty::DateTimeLocal.to_postgres(), "TIMESTAMP WITH TIME ZONE NOT NULL");
    assert_eq!(Ty::DateTimeFixedOffset.to_postgres(), "TIMESTAMP WITH TIME ZONE NOT NULL");
    assert_eq!(Ty::NaiveDate.to_postgres(), "DATE NOT NULL");
    assert_eq!(Ty::NaiveTime.to_postgres(), "TIME NOT NULL");
    assert_eq!(Ty::MacAddress.to_postgres(), "MACADDR NOT NULL");
    assert_eq!(Ty::Point.to_postgres(), "POINT NOT NULL");
    assert_eq!(Ty::Rect.to_postgres(), "BOX NOT NULL");
    assert_eq!(Ty::LineString.to_postgres(), "PATH NOT NULL");
    assert_eq!(Ty::Uuid.to_postgres(), "UUID NOT NULL");
    assert_eq!(Ty::PrimitiveDateTime.to_postgres(), "TIMESTAMP NOT NULL");
    assert_eq!(Ty::OffsetDateTime.to_postgres(), "TIMESTAMP WITH TIME ZONE NOT NULL");
    assert_eq!(Ty::Date.to_postgres(), "DATE NOT NULL");
    assert_eq!(Ty::Time.to_postgres(), "TIME NOT NULL");
}

#[test]
fn id_is_serial_primary_key() {
    assert_eq!(Ty::Id.to_postgres(), "SERIAL PRIMARY KEY");
}

#[test]
fn optional_strips_not_null() {
    assert_eq!(Ty::Option(Box::new(Ty::I32)).to_postgres(), "INT");
    assert_eq!(Ty::Option(Box::new(Ty::String)).to_postgres(), "VARCHAR");
    assert_eq!(
        Ty::Option(Box::new(Ty::DateTimeUtc)).to_postgres(),
        "TIMESTAMP WITH TIME ZONE"
    );
    for ty in [Ty::Bool, Ty::Json, Ty::Point, Ty::Uuid] {
        let plain = ty.to_postgres();
        let optional = Ty::Option(Box::new(ty)).to_postgres();
        assert_eq!(format!("{} NOT NULL", optional), plain);
    }
}

#[test]
fn enum_type_is_snake_case() {
    assert_eq!(Ty::Enum("UserRole".to_string()).to_postgres(), "user_role NOT NULL");
    assert_eq!(Ty::Enum("role".to_string()).to_postgres(), "role NOT NULL");
    assert_eq!(Ty::Option(Box::new(Ty::Enum("IsOk".to_string()))).to_postgres(), "is_ok");
}

#[test]
fn reference_points_at_id() {
    assert_eq!(
        Ty::Reference("ProjectUser".to_string()).to_postgres(),
        "INT NOT NULL REFERENCES project_user (id)"
    );
}

#[test]
fn create_table_lists_columns() {
    assert_eq!(
        users().create_table(),
        "CREATE TABLE users (id SERIAL PRIMARY KEY, name VARCHAR NOT NULL);"
    );
    let mut t = Table::new("user");
    t.columns.push(Column::new("id", Ty::Id, false));
    t.columns.push(Column::new("username", Ty::String, true));
    t.columns.push(Column::new("age", Ty::Option(Box::new(Ty::I32)), false));
    assert_eq!(
        t.create_table(),
        "CREATE TABLE user (id SERIAL PRIMARY KEY, username VARCHAR NOT NULL UNIQUE, age INT);"
    );
}

#[test]
fn create_table_without_columns() {
    assert_eq!(Table::new("empty").create_table(), "CREATE TABLE empty ();");
}

#[test]
fn drop_table_cascades() {
    assert_eq!(users().drop_table(), "DROP TABLE users CASCADE;");
}

#[test]
fn create_and_drop_type() {
    let e = Enum {
        name: "role".to_string(),
        variants: vec!["admin".to_string(), "write".to_string(), "read".to_string()],
    };
    assert_eq!(e.create_type(), "CREATE TYPE role AS ENUM ('admin', 'write', 'read');");
    assert_eq!(e.drop_type(), "DROP TYPE role;");
    let one = Enum { name: "one".to_string(), variants: vec!["only".to_string()] };
    assert_eq!(one.create_type(), "CREATE TYPE one AS ENUM ('only');");
}

#[test]
fn element_create_and_drop() {
    let t = Element::Table(users());
    assert_eq!(t.create(), users().create_table());
    assert_eq!(t.drop(), "DROP TABLE users CASCADE;");
    let e = Element::Enum(Enum { name: "mood".to_string(), variants: vec!["ok".to_string()] });
    assert_eq!(e.create(), "CREATE TYPE mood AS ENUM ('ok');");
    assert_eq!(e.drop(), "DROP TYPE mood;");
}

#[test]
fn current_migration_table() {
    let t = Table::current_migration();
    assert_eq!(t.name, "ergol");
    assert_eq!(
        t.columns,
        vec![Column::new("id", Ty::Id, false), Column::new("migration", Ty::I32, false)]
    );
    assert_eq!(
        t.create_table(),
        "CREATE TABLE ergol (id SERIAL PRIMARY KEY, migration INT NOT NULL);"
    );
}

#[test]
fn column_new_keeps_fields() {
    let c = Column::new("email", Ty::String, true);
    assert_eq!(c.name, "email");
    assert_eq!(c.ty, Ty::String);
    assert!(c.unique);
    assert_eq!(c.to_sql(), "email VARCHAR NOT NULL UNIQUE");
}

#[test]
fn dependencies_follow_references() {
    let mut t = Table::new("project");
    t.columns.push(Column::new("id", Ty::Id, false));
    t.columns.push(Column::new("owner", Ty::Reference("user".to_string()), false));
    t.columns.push(Column::new("name", Ty::String, false));
    t.columns.push(Column::new(
        "team",
        Ty::Option(Box::new(Ty::Reference("team".to_string()))),
        false,
    ));
    assert_eq!(t.dependencies(), vec!["user".to_string(), "team".to_string()]);
    assert!(users().dependencies().is_empty());
}

#[test]
fn equality_is_structural() {
    assert_eq!(users(), users());
    assert_eq!(users().clone(), users());
    let mut other = users();
    other.columns.reverse();
    assert_ne!(users(), other);
    assert_ne!(Ty::Option(Box::new(Ty::I32)), Ty::Option(Box::new(Ty::I64)));
    assert_eq!(Ty::Enum("a".to_string()), Ty::Enum("a".to_string()).clone());
    assert_ne!(Ty::Enum("a".to_string()), Ty::Reference("a".to_string()));
    assert_ne!(Column::new("a", Ty::I32, false), Column::new("a", Ty::I32, true));
}
