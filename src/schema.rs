//! The schema model: column types, columns, tables, enum types, and the SQL
//! that creates and drops them.
use vstd::prelude::*;
use vstd::string::StringExecFns;

use crate::naming::{snake_case, to_snake};

verus! {

/// The type of a column.
#[derive(Debug)]
pub enum Ty {
    /// An ID column.
    Id,
    /// An i32 column.
    I32,
    /// An i64 column.
    I64,
    /// A boolean column.
    Bool,
    /// A string column.
    String,
    /// A JSON value.
    Json,
    /// A bit vec.
    BitVec,
    /// A naive date time.
    NaiveDateTime,
    /// A date time in UTC.
    DateTimeUtc,
    /// A date time in the local time zone.
    DateTimeLocal,
    /// A date time with a fixed offset.
    DateTimeFixedOffset,
    /// A naive date.
    NaiveDate,
    /// A naive time.
    NaiveTime,
    /// A MAC address.
    MacAddress,
    /// A geometric point.
    Point,
    /// A geometric rectangle.
    Rect,
    /// A geometric path.
    LineString,
    /// A uuid.
    Uuid,
    /// A primitive date time.
    PrimitiveDateTime,
    /// A date time with an offset.
    OffsetDateTime,
    /// A date.
    Date,
    /// A time.
    Time,
    /// An optional type.
    Option(Box<Ty>),
    /// An enum type.
    Enum(String),
    /// A reference to another table.
    Reference(String),
}

/// The mathematical model of a column type: `Ty` with its names as character
/// sequences.
pub enum TyModel {
    Id,
    I32,
    I64,
    Bool,
    String,
    Json,
    BitVec,
    NaiveDateTime,
    DateTimeUtc,
    DateTimeLocal,
    DateTimeFixedOffset,
    NaiveDate,
    NaiveTime,
    MacAddress,
    Point,
    Rect,
    LineString,
    Uuid,
    PrimitiveDateTime,
    OffsetDateTime,
    Date,
    Time,
    Option(Box<TyModel>),
    Enum(Seq<char>),
    Reference(Seq<char>),
}

/// The model of a column type.
pub open spec fn ty_model(t: Ty) -> TyModel
    decreases t,
{
    match t {
        Ty::Id => TyModel::Id,
        Ty::I32 => TyModel::I32,
        Ty::I64 => TyModel::I64,
        Ty::Bool => TyModel::Bool,
        Ty::String => TyModel::String,
        Ty::Json => TyModel::Json,
        Ty::BitVec => TyModel::BitVec,
        Ty::NaiveDateTime => TyModel::NaiveDateTime,
        Ty::DateTimeUtc => TyModel::DateTimeUtc,
        Ty::DateTimeLocal => TyModel::DateTimeLocal,
        Ty::DateTimeFixedOffset => TyModel::DateTimeFixedOffset,
        Ty::NaiveDate => TyModel::NaiveDate,
        Ty::NaiveTime => TyModel::NaiveTime,
        Ty::MacAddress => TyModel::MacAddress,
        Ty::Point => TyModel::Point,
        Ty::Rect => TyModel::Rect,
        Ty::LineString => TyModel::LineString,
        Ty::Uuid => TyModel::Uuid,
        Ty::PrimitiveDateTime => TyModel::PrimitiveDateTime,
        Ty::OffsetDateTime => TyModel::OffsetDateTime,
        Ty::Date => TyModel::Date,
        Ty::Time => TyModel::Time,
        Ty::Option(inner) => TyModel::Option(Box::new(ty_model(*inner))),
        Ty::Enum(s) => TyModel::Enum(s@),
        Ty::Reference(s) => TyModel::Reference(s@),
    }
}

impl View for Ty {
    type V = TyModel;

    open spec fn view(&self) -> TyModel {
        ty_model(*self)
    }
}

/// Whether a column of this type can be made nullable: every type whose
/// rendering ends with the `NOT NULL` marker, that is all but the identity key,
/// a reference, and an optional type.
pub open spec fn nullable_inner(t: TyModel) -> bool {
    match t {
        TyModel::Id | TyModel::Option(_) | TyModel::Reference(_) => false,
        _ => true,
    }
}

/// A well-formed column type: optionality is a single wrapper around a type
/// that ends with `NOT NULL`.
pub open spec fn ty_wf(t: TyModel) -> bool {
    match t {
        TyModel::Option(inner) => nullable_inner(*inner),
        _ => true,
    }
}

/// The SQL name of a type that ends with `NOT NULL`, without that marker.
pub open spec fn sql_base(t: TyModel) -> Seq<char> {
    match t {
        TyModel::I32 => "INT"@,
        TyModel::I64 => "BIGINT"@,
        TyModel::Bool => "BOOL"@,
        TyModel::String => "VARCHAR"@,
        TyModel::Json => "JSON"@,
        TyModel::BitVec => "VARBIT"@,
        TyModel::NaiveDateTime => "TIMESTAMP"@,
        TyModel::DateTimeUtc => "TIMESTAMP WITH TIME ZONE"@,
        TyModel::DateTimeLocal => "TIMESTAMP WITH TIME ZONE"@,
        TyModel::DateTimeFixedOffset => "TIMESTAMP WITH TIME ZONE"@,
        TyModel::NaiveDate => "DATE"@,
        TyModel::NaiveTime => "TIME"@,
        TyModel::MacAddress => "MACADDR"@,
        TyModel::Point => "POINT"@,
        TyModel::Rect => "BOX"@,
        TyModel::LineString => "PATH"@,
        TyModel::Uuid => "UUID"@,
        TyModel::PrimitiveDateTime => "TIMESTAMP"@,
        TyModel::OffsetDateTime => "TIMESTAMP WITH TIME ZONE"@,
        TyModel::Date => "DATE"@,
        TyModel::Time => "TIME"@,
        TyModel::Enum(s) => snake_case(s),
        _ => Seq::empty(),
    }
}

/// The PostgreSQL column type of a column type.
pub open spec fn pg_type(t: TyModel) -> Seq<char> {
    match t {
        TyModel::Id => "SERIAL PRIMARY KEY"@,
        TyModel::Option(inner) => sql_base(*inner),
        TyModel::Reference(s) => "INT NOT NULL REFERENCES "@ + snake_case(s) + " (id)"@,
        _ => sql_base(t) + " NOT NULL"@,
    }
}

/// The name of the table that a column type refers to, if it refers to one.
pub open spec fn referenced(t: TyModel) -> Option<Seq<char>> {
    match t {
        TyModel::Reference(s) => Some(s),
        TyModel::Option(inner) => match *inner {
            TyModel::Reference(s) => Some(s),
            _ => None,
        },
        _ => None,
    }
}

/// The optional wrapper strips exactly the `NOT NULL` marker from the
/// rendering of the type it wraps.
pub proof fn lemma_nullable_strips_not_null(t: TyModel)
    requires
        nullable_inner(t),
    ensures
        pg_type(TyModel::Option(Box::new(t))) + " NOT NULL"@ == pg_type(t),
{
}


impl Clone for Ty {
    fn clone(&self) -> (r: Self)
        ensures
            r@ == self@,
        decreases self,
    {
        match self {
            Ty::Id => Ty::Id,
            Ty::I32 => Ty::I32,
            Ty::I64 => Ty::I64,
            Ty::Bool => Ty::Bool,
            Ty::String => Ty::String,
            Ty::Json => Ty::Json,
            Ty::BitVec => Ty::BitVec,
            Ty::NaiveDateTime => Ty::NaiveDateTime,
            Ty::DateTimeUtc => Ty::DateTimeUtc,
            Ty::DateTimeLocal => Ty::DateTimeLocal,
            Ty::DateTimeFixedOffset => Ty::DateTimeFixedOffset,
            Ty::NaiveDate => Ty::NaiveDate,
            Ty::NaiveTime => Ty::NaiveTime,
            Ty::MacAddress => Ty::MacAddress,
            Ty::Point => Ty::Point,
            Ty::Rect => Ty::Rect,
            Ty::LineString => Ty::LineString,
            Ty::Uuid => Ty::Uuid,
            Ty::PrimitiveDateTime => Ty::PrimitiveDateTime,
            Ty::OffsetDateTime => Ty::OffsetDateTime,
            Ty::Date => Ty::Date,
            Ty::Time => Ty::Time,
            Ty::Option(inner) => Ty::Option(Box::new((**inner).clone())),
            Ty::Enum(s) => Ty::Enum(s.clone()),
            Ty::Reference(s) => Ty::Reference(s.clone()),
        }
    }
}

impl PartialEq for Ty {
    fn eq(&self, other: &Ty) -> (r: bool) {
        self.same(other)
    }
}

impl Ty {
    fn same(&self, other: &Ty) -> (r: bool)
        ensures
            r == (self@ == other@),
        decreases self,
    {
        match (self, other) {
            (Ty::Id, Ty::Id) => true,
            (Ty::I32, Ty::I32) => true,
            (Ty::I64, Ty::I64) => true,
            (Ty::Bool, Ty::Bool) => true,
            (Ty::String, Ty::String) => true,
            (Ty::Json, Ty::Json) => true,
            (Ty::BitVec, Ty::BitVec) => true,
            (Ty::NaiveDateTime, Ty::NaiveDateTime) => true,
            (Ty::DateTimeUtc, Ty::DateTimeUtc) => true,
            (Ty::DateTimeLocal, Ty::DateTimeLocal) => true,
            (Ty::DateTimeFixedOffset, Ty::DateTimeFixedOffset) => true,
            (Ty::NaiveDate, Ty::NaiveDate) => true,
            (Ty::NaiveTime, Ty::NaiveTime) => true,
            (Ty::MacAddress, Ty::MacAddress) => true,
            (Ty::Point, Ty::Point) => true,
            (Ty::Rect, Ty::Rect) => true,
            (Ty::LineString, Ty::LineString) => true,
            (Ty::Uuid, Ty::Uuid) => true,
            (Ty::PrimitiveDateTime, Ty::PrimitiveDateTime) => true,
            (Ty::OffsetDateTime, Ty::OffsetDateTime) => true,
            (Ty::Date, Ty::Date) => true,
            (Ty::Time, Ty::Time) => true,
            (Ty::Option(a), Ty::Option(b)) => (**a).same(&**b),
            (Ty::Enum(a), Ty::Enum(b)) => a.eq(b),
            (Ty::Reference(a), Ty::Reference(b)) => a.eq(b),
            _ => false,
        }
    }
}

impl vstd::std_specs::cmp::PartialEqSpecImpl for Ty {
    open spec fn obeys_eq_spec() -> bool {
        true
    }

    open spec fn eq_spec(&self, other: &Ty) -> bool {
        self@ == other@
    }
}

impl Eq for Ty {

}

impl Ty {
    fn base_sql(&self) -> (r: String)
        requires
            nullable_inner(self@),
        ensures
            r@ == sql_base(self@),
    {
        match self {
            Ty::I32 => "INT".to_owned(),
            Ty::I64 => "BIGINT".to_owned(),
            Ty::Bool => "BOOL".to_owned(),
            Ty::String => "VARCHAR".to_owned(),
            Ty::Json => "JSON".to_owned(),
            Ty::BitVec => "VARBIT".to_owned(),
            Ty::NaiveDateTime => "TIMESTAMP".to_owned(),
            Ty::DateTimeUtc | Ty::DateTimeLocal | Ty::DateTimeFixedOffset => {
                "TIMESTAMP WITH TIME ZONE".to_owned()
            },
            Ty::NaiveDate => "DATE".to_owned(),
            Ty::NaiveTime => "TIME".to_owned(),
            Ty::MacAddress => "MACADDR".to_owned(),
            Ty::Point => "POINT".to_owned(),
            Ty::Rect => "BOX".to_owned(),
            Ty::LineString => "PATH".to_owned(),
            Ty::Uuid => "UUID".to_owned(),
            Ty::PrimitiveDateTime => "TIMESTAMP".to_owned(),
            Ty::OffsetDateTime => "TIMESTAMP WITH TIME ZONE".to_owned(),
            Ty::Date => "DATE".to_owned(),
            Ty::Time => "TIME".to_owned(),
            Ty::Enum(s) => to_snake(s.as_str()),
            Ty::Id | Ty::Option(_) | Ty::Reference(_) => String::new(),
        }
    }

    /// Returns the postgres representation of the type.
    pub fn to_postgres(&self) -> (r: String)
        requires
            ty_wf(self@),
        ensures
            r@ == pg_type(self@),
    {
        match self {
            Ty::Id => "SERIAL PRIMARY KEY".to_owned(),
            Ty::Option(inner) => inner.base_sql(),
            Ty::Reference(s) => {
                let mut r = "INT NOT NULL REFERENCES ".to_owned();
                let snake = to_snake(s.as_str());
                r.append(snake.as_str());
                r.append(" (id)");
                r
            },
            _ => {
                let mut r = self.base_sql();
                r.append(" NOT NULL");
                r
            },
        }
    }
}


/// A column of a table.
#[derive(Debug)]
pub struct Column {
    /// The name of the column.
    pub name: String,
    /// The type of the column.
    pub ty: Ty,
    /// Whether the column is unique or not.
    pub unique: bool,
}

/// The mathematical model of a column.
pub struct ColumnModel {
    pub name: Seq<char>,
    pub ty: TyModel,
    pub unique: bool,
}

impl View for Column {
    type V = ColumnModel;

    open spec fn view(&self) -> ColumnModel {
        ColumnModel { name: self.name@, ty: self.ty@, unique: self.unique }
    }
}

/// A table: its name and its ordered columns, the first of which is
/// conventionally the identity column.
#[derive(Debug)]
pub struct Table {
    /// The name of the table.
    pub name: String,
    /// The columns of the table.
    pub columns: Vec<Column>,
}

/// The mathematical model of a table.
pub struct TableModel {
    pub name: Seq<char>,
    pub columns: Seq<ColumnModel>,
}

/// The models of the columns, in order.
pub open spec fn columns_model(cs: Seq<Column>) -> Seq<ColumnModel> {
    cs.map_values(|c: Column| c@)
}

impl View for Table {
    type V = TableModel;

    open spec fn view(&self) -> TableModel {
        TableModel { name: self.name@, columns: columns_model(self.columns@) }
    }
}

/// An enum type of the database.
#[derive(Debug)]
pub struct Enum {
    /// The name of the type.
    pub name: String,
    /// The variants.
    pub variants: Vec<String>,
}

/// The mathematical model of an enum type.
pub struct EnumModel {
    pub name: Seq<char>,
    pub variants: Seq<Seq<char>>,
}

/// The character sequences of the strings, in order.
pub open spec fn strings_model(vs: Seq<String>) -> Seq<Seq<char>> {
    vs.map_values(|v: String| v@)
}

impl View for Enum {
    type V = EnumModel;

    open spec fn view(&self) -> EnumModel {
        EnumModel { name: self.name@, variants: strings_model(self.variants@) }
    }
}

/// An element that can be created in the database: an enum type or a table.
#[derive(Debug)]
pub enum Element {
    /// An enum type.
    Enum(Enum),
    /// A table.
    Table(Table),
}

/// The mathematical model of an element.
pub enum ElementModel {
    Enum(EnumModel),
    Table(TableModel),
}

impl View for Element {
    type V = ElementModel;

    open spec fn view(&self) -> ElementModel {
        match self {
            Element::Enum(e) => ElementModel::Enum(e@),
            Element::Table(t) => ElementModel::Table(t@),
        }
    }
}

/// The parts joined with a separator between each two of them.
pub open spec fn join(parts: Seq<Seq<char>>, sep: Seq<char>) -> Seq<char>
    decreases parts.len(),
{
    if parts.len() == 0 {
        Seq::empty()
    } else if parts.len() == 1 {
        parts[0]
    } else {
        join(parts.drop_last(), sep) + sep + parts.last()
    }
}

/// A column as it stands in a `CREATE TABLE` statement.
pub open spec fn column_sql(c: ColumnModel) -> Seq<char> {
    c.name + " "@ + pg_type(c.ty) + if c.unique {
        " UNIQUE"@
    } else {
        Seq::empty()
    }
}

/// A column whose type can be rendered.
pub open spec fn column_wf(c: ColumnModel) -> bool {
    ty_wf(c.ty)
}

/// A table whose column types can all be rendered.
pub open spec fn table_wf(t: TableModel) -> bool {
    forall|i: int| 0 <= i < t.columns.len() ==> column_wf(#[trigger] t.columns[i])
}

/// The `CREATE TABLE` statement of a table.
pub open spec fn create_table_sql(t: TableModel) -> Seq<char> {
    "CREATE TABLE "@ + t.name + " ("@ + join(t.columns.map_values(|c: ColumnModel| column_sql(c)), ", "@)
        + ");"@
}

/// The `DROP TABLE` statement of a table.
pub open spec fn drop_table_sql(t: TableModel) -> Seq<char> {
    "DROP TABLE "@ + t.name + " CASCADE;"@
}

/// The `CREATE TYPE` statement of an enum type.
pub open spec fn create_type_sql(e: EnumModel) -> Seq<char> {
    "CREATE TYPE "@ + e.name + " AS ENUM ('"@ + join(e.variants, "', '"@) + "');"@
}

/// The `DROP TYPE` statement of an enum type.
pub open spec fn drop_type_sql(e: EnumModel) -> Seq<char> {
    "DROP TYPE "@ + e.name + ";"@
}

/// An element whose SQL can be rendered.
pub open spec fn element_wf(e: ElementModel) -> bool {
    match e {
        ElementModel::Enum(_) => true,
        ElementModel::Table(t) => table_wf(t),
    }
}

/// The statement that creates an element.
pub open spec fn create_sql(e: ElementModel) -> Seq<char> {
    match e {
        ElementModel::Enum(x) => create_type_sql(x),
        ElementModel::Table(t) => create_table_sql(t),
    }
}

/// The statement that drops an element.
pub open spec fn drop_sql(e: ElementModel) -> Seq<char> {
    match e {
        ElementModel::Enum(x) => drop_type_sql(x),
        ElementModel::Table(t) => drop_table_sql(t),
    }
}

/// The names of the tables that a table refers to, in the order of its columns.
pub open spec fn table_deps(t: TableModel) -> Seq<Seq<char>> {
    t.columns.filter_map(|c: ColumnModel| referenced(c.ty))
}

pub(crate) proof fn lemma_join_step(parts: Seq<Seq<char>>, sep: Seq<char>, i: int)
    requires
        0 <= i < parts.len(),
    ensures
        join(parts.take(i + 1), sep) == if i == 0 {
            parts[0]
        } else {
            join(parts.take(i), sep) + sep + parts[i]
        },
{
    assert(parts.take(i + 1).drop_last() =~= parts.take(i));
}

impl Clone for Column {
    fn clone(&self) -> (r: Self)
        ensures
            r@ == self@,
    {
        Column { name: self.name.clone(), ty: self.ty.clone(), unique: self.unique }
    }
}

impl PartialEq for Column {
    fn eq(&self, other: &Column) -> (r: bool) {
        self.name.eq(&other.name) && self.ty.same(&other.ty) && self.unique == other.unique
    }
}

impl vstd::std_specs::cmp::PartialEqSpecImpl for Column {
    open spec fn obeys_eq_spec() -> bool {
        true
    }

    open spec fn eq_spec(&self, other: &Column) -> bool {
        self@ == other@
    }
}

impl Eq for Column {

}

impl Column {
    /// The column as it stands in a `CREATE TABLE` statement.
    pub fn to_sql(&self) -> (r: String)
        requires
            column_wf(self@),
        ensures
            r@ == column_sql(self@),
    {
        let mut r = self.name.clone();
        r.append(" ");
        let ty = self.ty.to_postgres();
        r.append(ty.as_str());
        if self.unique {
            r.append(" UNIQUE");
        }
        r
    }

    /// Creates a new column.
    pub fn new(name: &str, ty: Ty, unique: bool) -> (r: Column)
        ensures
            r@ == (ColumnModel { name: name@, ty: ty@, unique }),
    {
        Column { name: name.to_owned(), ty, unique }
    }
}

impl Clone for Table {
    fn clone(&self) -> (r: Self)
        ensures
            r@ == self@,
    {
        let mut columns: Vec<Column> = Vec::new();
        let mut i: usize = 0;
        while i < self.columns.len()
            invariant
                i <= self.columns.len(),
                columns.len() == i,
                forall|k: int| 0 <= k < i ==> columns@[k]@ == self.columns@[k]@,
            decreases self.columns.len() - i,
        {
            columns.push(self.columns[i].clone());
            i += 1;
        }
        assert(columns_model(columns@) =~= columns_model(self.columns@));
        Table { name: self.name.clone(), columns }
    }
}

impl PartialEq for Table {
    fn eq(&self, other: &Table) -> (r: bool) {
        self.same(other)
    }
}

impl vstd::std_specs::cmp::PartialEqSpecImpl for Table {
    open spec fn obeys_eq_spec() -> bool {
        true
    }

    open spec fn eq_spec(&self, other: &Table) -> bool {
        self@ == other@
    }
}

impl Eq for Table {

}

impl Table {
    fn same(&self, other: &Table) -> (r: bool)
        ensures
            r == (self@ == other@),
    {
        if !self.name.eq(&other.name) || self.columns.len() != other.columns.len() {
            proof {
                if self@ == other@ {
                    assert(self.columns@.len() == columns_model(self.columns@).len());
                }
            }
            return false;
        }
        let mut i: usize = 0;
        while i < self.columns.len()
            invariant
                i <= self.columns.len(),
                self.columns.len() == other.columns.len(),
                forall|k: int| 0 <= k < i ==> self.columns@[k]@ == other.columns@[k]@,
            decreases self.columns.len() - i,
        {
            if !self.columns[i].eq(&other.columns[i]) {
                assert(columns_model(self.columns@)[i as int] != columns_model(other.columns@)[i as int]);
                return false;
            }
            i += 1;
        }
        assert(columns_model(self.columns@) =~= columns_model(other.columns@));
        true
    }

    /// Creates a new empty table.
    pub fn new(name: &str) -> (r: Table)
        ensures
            r@ == (TableModel { name: name@, columns: Seq::empty() }),
    {
        let r = Table { name: name.to_owned(), columns: Vec::new() };
        assert(columns_model(r.columns@) =~= Seq::empty());
        r
    }

    /// Returns the create table query for the table.
    pub fn create_table(&self) -> (r: String)
        requires
            table_wf(self@),
        ensures
            r@ == create_table_sql(self@),
    {
        let ghost parts = self@.columns.map_values(|c: ColumnModel| column_sql(c));
        let mut r = "CREATE TABLE ".to_owned();
        r.append(self.name.as_str());
        r.append(" (");
        let ghost start = r@;
        let mut i: usize = 0;
        while i < self.columns.len()
            invariant
                i <= self.columns.len(),
                table_wf(self@),
                parts == self@.columns.map_values(|c: ColumnModel| column_sql(c)),
                r@ == start + join(parts.take(i as int), ", "@),
            decreases self.columns.len() - i,
        {
            proof {
                lemma_join_step(parts, ", "@, i as int);
            }
            if i > 0 {
                r.append(", ");
            }
            assert(column_wf(self@.columns[i as int]));
            let c = self.columns[i].to_sql();
            r.append(c.as_str());
            i += 1;
        }
        assert(parts.take(i as int) =~= parts);
        r.append(");");
        r
    }

    /// Returns the drop table query for the table.
    pub fn drop_table(&self) -> (r: String)
        ensures
            r@ == drop_table_sql(self@),
    {
        let mut r = "DROP TABLE ".to_owned();
        r.append(self.name.as_str());
        r.append(" CASCADE;");
        r
    }

    /// The table that holds the index of the last migration run on a database.
    pub fn current_migration() -> (r: Table)
        ensures
            r@ == (TableModel {
                name: "ergol"@,
                columns: seq![
                    ColumnModel { name: "id"@, ty: TyModel::Id, unique: false },
                    ColumnModel { name: "migration"@, ty: TyModel::I32, unique: false },
                ],
            }),
    {
        let mut columns: Vec<Column> = Vec::new();
        columns.push(Column::new("id", Ty::Id, false));
        columns.push(Column::new("migration", Ty::I32, false));
        let r = Table { name: "ergol".to_owned(), columns };
        assert(columns_model(r.columns@) =~= seq![
            ColumnModel { name: "id"@, ty: TyModel::Id, unique: false },
            ColumnModel { name: "migration"@, ty: TyModel::I32, unique: false },
        ]);
        r
    }
}


impl Ty {
    /// Whether the type can be rendered: an optional type wraps a type that
    /// is neither an identity key, a reference nor optional.
    pub fn is_well_formed(&self) -> (r: bool)
        ensures
            r == ty_wf(self@),
    {
        proof {
            reveal_with_fuel(ty_model, 2);
        }
        match self {
            Ty::Option(inner) => match &**inner {
                Ty::Id | Ty::Option(_) | Ty::Reference(_) => false,
                _ => true,
            },
            _ => true,
        }
    }

    /// The name of the table that this type refers to, if it refers to one.
    pub fn referenced_table(&self) -> (r: Option<&String>)
        ensures
            r is Some ==> referenced(self@) == Some(r->Some_0@),
            r is None ==> referenced(self@) is None,
    {
        proof {
            reveal_with_fuel(ty_model, 2);
        }
        match self {
            Ty::Reference(s) => Some(s),
            Ty::Option(inner) => match &**inner {
                Ty::Reference(s) => Some(s),
                _ => None,
            },
            _ => None,
        }
    }
}

impl Table {
    /// Whether every column type of the table can be rendered.
    pub fn is_well_formed(&self) -> (r: bool)
        ensures
            r == table_wf(self@),
    {
        let mut i: usize = 0;
        while i < self.columns.len()
            invariant
                i <= self.columns.len(),
                forall|k: int| 0 <= k < i ==> column_wf(#[trigger] self@.columns[k]),
            decreases self.columns.len() - i,
        {
            if !self.columns[i].ty.is_well_formed() {
                assert(!column_wf(self@.columns[i as int]));
                return false;
            }
            i += 1;
        }
        true
    }

    /// The names of the tables that this table refers to, one for each column
    /// of reference type, in the order of the columns.
    pub fn dependencies(&self) -> (r: Vec<String>)
        ensures
            strings_model(r@) == table_deps(self@),
    {
        let ghost cols = self@.columns;
        let mut r: Vec<String> = Vec::new();
        let mut i: usize = 0;
        while i < self.columns.len()
            invariant
                i <= self.columns.len(),
                cols == self@.columns,
                strings_model(r@) =~= cols.take(i as int).filter_map(
                    |c: ColumnModel| referenced(c.ty),
                ),
            decreases self.columns.len() - i,
        {
            assert(cols.take(i as int + 1).drop_last() =~= cols.take(i as int));
            match self.columns[i].ty.referenced_table() {
                Some(s) => {
                    r.push(s.clone());
                },
                None => {},
            }
            i += 1;
        }
        assert(cols.take(i as int) =~= cols);
        r
    }
}

fn clone_strings(v: &Vec<String>) -> (r: Vec<String>)
    ensures
        strings_model(r@) == strings_model(v@),
{
    let mut r: Vec<String> = Vec::new();
    let mut i: usize = 0;
    while i < v.len()
        invariant
            i <= v.len(),
            r.len() == i,
            forall|k: int| 0 <= k < i ==> r@[k]@ == v@[k]@,
        decreases v.len() - i,
    {
        r.push(v[i].clone());
        i += 1;
    }
    assert(strings_model(r@) =~= strings_model(v@));
    r
}

/// Whether two vectors of strings hold the same strings in the same order.
pub(crate) fn same_strings(a: &Vec<String>, b: &Vec<String>) -> (r: bool)
    ensures
        r == (strings_model(a@) == strings_model(b@)),
{
    if a.len() != b.len() {
        proof {
            if strings_model(a@) == strings_model(b@) {
                assert(strings_model(a@).len() == a@.len());
            }
        }
        return false;
    }
    let mut i: usize = 0;
    while i < a.len()
        invariant
            i <= a.len(),
            a.len() == b.len(),
            forall|k: int| 0 <= k < i ==> a@[k]@ == b@[k]@,
        decreases a.len() - i,
    {
        if !a[i].eq(&b[i]) {
            assert(strings_model(a@)[i as int] != strings_model(b@)[i as int]);
            return false;
        }
        i += 1;
    }
    assert(strings_model(a@) =~= strings_model(b@));
    true
}

impl Clone for Enum {
    fn clone(&self) -> (r: Self)
        ensures
            r@ == self@,
    {
        Enum { name: self.name.clone(), variants: clone_strings(&self.variants) }
    }
}

impl PartialEq for Enum {
    fn eq(&self, other: &Enum) -> (r: bool) {
        self.name.eq(&other.name) && same_strings(&self.variants, &other.variants)
    }
}

impl vstd::std_specs::cmp::PartialEqSpecImpl for Enum {
    open spec fn obeys_eq_spec() -> bool {
        true
    }

    open spec fn eq_spec(&self, other: &Enum) -> bool {
        self@ == other@
    }
}

impl Eq for Enum {

}

impl Enum {
    /// Returns the query that creates the type.
    pub fn create_type(&self) -> (r: String)
        ensures
            r@ == create_type_sql(self@),
    {
        let ghost parts = self@.variants;
        let mut r = "CREATE TYPE ".to_owned();
        r.append(self.name.as_str());
        r.append(" AS ENUM ('");
        let ghost start = r@;
        let mut i: usize = 0;
        while i < self.variants.len()
            invariant
                i <= self.variants.len(),
                parts == self@.variants,
                r@ == start + join(parts.take(i as int), "', '"@),
            decreases self.variants.len() - i,
        {
            proof {
                lemma_join_step(parts, "', '"@, i as int);
            }
            if i > 0 {
                r.append("', '");
            }
            r.append(self.variants[i].as_str());
            i += 1;
        }
        assert(parts.take(i as int) =~= parts);
        r.append("');");
        r
    }

    /// Returns the query that drops the type.
    pub fn drop_type(&self) -> (r: String)
        ensures
            r@ == drop_type_sql(self@),
    {
        let mut r = "DROP TYPE ".to_owned();
        r.append(self.name.as_str());
        r.append(";");
        r
    }
}

impl Clone for Element {
    fn clone(&self) -> (r: Self)
        ensures
            r@ == self@,
    {
        match self {
            Element::Enum(e) => Element::Enum(e.clone()),
            Element::Table(t) => Element::Table(t.clone()),
        }
    }
}

impl PartialEq for Element {
    fn eq(&self, other: &Element) -> (r: bool) {
        match (self, other) {
            (Element::Enum(a), Element::Enum(b)) => a.eq(b),
            (Element::Table(a), Element::Table(b)) => a.eq(b),
            _ => false,
        }
    }
}

impl vstd::std_specs::cmp::PartialEqSpecImpl for Element {
    open spec fn obeys_eq_spec() -> bool {
        true
    }

    open spec fn eq_spec(&self, other: &Element) -> bool {
        self@ == other@
    }
}

impl Eq for Element {

}

impl Element {
    /// Returns the create query of the element.
    pub fn create(&self) -> (r: String)
        requires
            element_wf(self@),
        ensures
            r@ == create_sql(self@),
    {
        match self {
            Element::Enum(e) => e.create_type(),
            Element::Table(t) => t.create_table(),
        }
    }

    /// Returns the drop query of the element.
    pub fn drop(&self) -> (r: String)
        ensures
            r@ == drop_sql(self@),
    {
        match self {
            Element::Enum(e) => e.drop_type(),
            Element::Table(t) => t.drop_table(),
        }
    }
}

} // verus!
