//! The differ: the operations that take a database from one schema snapshot
//! to another, and the SQL that runs each of them forward and back.
use vstd::prelude::*;
use vstd::relations::injective;
use vstd::string::StringExecFns;

use crate::schema::{
    join, column_sql, column_wf, table_wf, create_sql, drop_sql, element_wf, pg_type, strings_model, Column,
    ColumnModel, Element, ElementModel, Enum, EnumModel, Table, TableModel,
};

verus! {

/// A model value that is found by its name.
pub trait Named {
    spec fn key(&self) -> Seq<char>;
}

impl Named for EnumModel {
    open spec fn key(&self) -> Seq<char> {
        self.name
    }
}

impl Named for TableModel {
    open spec fn key(&self) -> Seq<char> {
        self.name
    }
}

impl Named for ColumnModel {
    open spec fn key(&self) -> Seq<char> {
        self.name
    }
}

/// The first item of `s` with the given name.
pub open spec fn first_named<A: Named>(s: Seq<A>, name: Seq<char>) -> Option<A>
    decreases s.len(),
{
    if s.len() == 0 {
        None
    } else if s[0].key() == name {
        Some(s[0])
    } else {
        first_named(s.drop_first(), name)
    }
}

/// No two items of `s` have the same name.
pub open spec fn names_unique<A: Named>(s: Seq<A>) -> bool {
    forall|i: int, j: int| 0 <= i < j < s.len() ==> s[i].key() != s[j].key()
}

/// The search for a name stops at its first bearer.
pub proof fn lemma_first_named<A: Named>(s: Seq<A>, name: Seq<char>, i: int)
    requires
        0 <= i <= s.len(),
        forall|k: int| 0 <= k < i ==> s[k].key() != name,
        i < s.len() ==> s[i].key() == name,
    ensures
        first_named(s, name) == if i < s.len() {
            Some(s[i])
        } else {
            None::<A>
        },
    decreases i,
{
    if i > 0 {
        lemma_first_named(s.drop_first(), name, i - 1);
    }
}

/// Among items with unique names, each is the first of its name.
pub proof fn lemma_first_named_unique<A: Named>(s: Seq<A>, i: int)
    requires
        names_unique(s),
        0 <= i < s.len(),
    ensures
        first_named(s, s[i].key()) == Some(s[i]),
{
    lemma_first_named(s, s[i].key(), i);
}

/// The models of the enums, in order.
pub open spec fn enums_model(es: Seq<Enum>) -> Seq<EnumModel> {
    es.map_values(|e: Enum| e@)
}

/// The models of the tables, in order.
pub open spec fn tables_model(ts: Seq<Table>) -> Seq<TableModel> {
    ts.map_values(|t: Table| t@)
}

fn find_enum(es: &Vec<Enum>, name: &String) -> (r: Option<usize>)
    ensures
        r matches Some(i) ==> i < es.len() && first_named(enums_model(es@), name@) == Some(
            es@[i as int]@,
        ),
        r is None ==> first_named(enums_model(es@), name@) is None,
{
    let mut i: usize = 0;
    while i < es.len()
        invariant
            i <= es.len(),
            forall|k: int| 0 <= k < i ==> enums_model(es@)[k].key() != name@,
        decreases es.len() - i,
    {
        if es[i].name.eq(name) {
            proof {
                lemma_first_named(enums_model(es@), name@, i as int);
            }
            return Some(i);
        }
        i += 1;
    }
    proof {
        lemma_first_named(enums_model(es@), name@, i as int);
    }
    None
}

fn find_table(ts: &Vec<Table>, name: &String) -> (r: Option<usize>)
    ensures
        r matches Some(i) ==> i < ts.len() && first_named(tables_model(ts@), name@) == Some(
            ts@[i as int]@,
        ),
        r is None ==> first_named(tables_model(ts@), name@) is None,
{
    let mut i: usize = 0;
    while i < ts.len()
        invariant
            i <= ts.len(),
            forall|k: int| 0 <= k < i ==> tables_model(ts@)[k].key() != name@,
        decreases ts.len() - i,
    {
        if ts[i].name.eq(name) {
            proof {
                lemma_first_named(tables_model(ts@), name@, i as int);
            }
            return Some(i);
        }
        i += 1;
    }
    proof {
        lemma_first_named(tables_model(ts@), name@, i as int);
    }
    None
}

fn find_column(t: &Table, name: &String) -> (r: Option<usize>)
    ensures
        r matches Some(i) ==> i < t.columns.len() && first_named(t@.columns, name@) == Some(
            t.columns@[i as int]@,
        ),
        r is None ==> first_named(t@.columns, name@) is None,
{
    let mut i: usize = 0;
    while i < t.columns.len()
        invariant
            i <= t.columns.len(),
            forall|k: int| 0 <= k < i ==> t@.columns[k].key() != name@,
        decreases t.columns.len() - i,
    {
        if t.columns[i].name.eq(name) {
            proof {
                lemma_first_named(t@.columns, name@, i as int);
            }
            return Some(i);
        }
        i += 1;
    }
    proof {
        lemma_first_named(t@.columns, name@, i as int);
    }
    None
}

pub(crate) fn contains_string(v: &Vec<String>, s: &String) -> (r: bool)
    ensures
        r == strings_model(v@).contains(s@),
{
    let mut i: usize = 0;
    while i < v.len()
        invariant
            i <= v.len(),
            forall|k: int| 0 <= k < i ==> strings_model(v@)[k] != s@,
        decreases v.len() - i,
    {
        if v[i].eq(s) {
            assert(strings_model(v@)[i as int] == s@);
            return true;
        }
        i += 1;
    }
    false
}


/// A unit of change between two database states.
#[derive(Debug)]
pub enum DiffElement {
    /// A new element needs to be created.
    Create(Element),
    /// An element needs to be dropped.
    Drop(Element),
    /// Creates a new column in a table.
    CreateColumn(String, Column),
    /// Drops a column in a table.
    DropColumn(String, Column),
    /// Creates a variant in an enum.
    CreateVariant(String, String),
    /// Drops a variant in an enum.
    DropVariant(String, String),
    /// A column of a table kept its name but changed its type or uniqueness:
    /// the migration has to be written by hand.
    AlterColumn(String, Column, Column),
}

/// The mathematical model of a diff operation.
pub enum DiffModel {
    Create(ElementModel),
    Drop(ElementModel),
    CreateColumn(Seq<char>, ColumnModel),
    DropColumn(Seq<char>, ColumnModel),
    CreateVariant(Seq<char>, Seq<char>),
    DropVariant(Seq<char>, Seq<char>),
    AlterColumn(Seq<char>, ColumnModel, ColumnModel),
}

impl View for DiffElement {
    type V = DiffModel;

    open spec fn view(&self) -> DiffModel {
        match self {
            DiffElement::Create(e) => DiffModel::Create(e@),
            DiffElement::Drop(e) => DiffModel::Drop(e@),
            DiffElement::CreateColumn(t, c) => DiffModel::CreateColumn(t@, c@),
            DiffElement::DropColumn(t, c) => DiffModel::DropColumn(t@, c@),
            DiffElement::CreateVariant(t, v) => DiffModel::CreateVariant(t@, v@),
            DiffElement::DropVariant(t, v) => DiffModel::DropVariant(t@, v@),
            DiffElement::AlterColumn(t, a, b) => DiffModel::AlterColumn(t@, a@, b@),
        }
    }
}

/// The models of the operations, in order.
pub open spec fn ops_model(ops: Seq<DiffElement>) -> Seq<DiffModel> {
    ops.map_values(|op: DiffElement| op@)
}

/// An operation whose SQL can be rendered in both directions.
pub open spec fn op_wf(op: DiffModel) -> bool {
    match op {
        DiffModel::Create(e) => element_wf(e),
        DiffModel::Drop(e) => element_wf(e),
        DiffModel::CreateColumn(_, c) => column_wf(c),
        DiffModel::DropColumn(_, c) => column_wf(c),
        DiffModel::AlterColumn(_, a, b) => column_wf(a) && column_wf(b),
        _ => true,
    }
}

/// Operations that can all be rendered.
pub open spec fn ops_wf(ops: Seq<DiffModel>) -> bool {
    forall|k: int| 0 <= k < ops.len() ==> op_wf(#[trigger] ops[k])
}

/// An operation whose forward SQL can be rendered: only a created table, a
/// created column and a changed column render column types.
pub open spec fn hint_wf(op: DiffModel) -> bool {
    match op {
        DiffModel::Create(e) => element_wf(e),
        DiffModel::CreateColumn(_, c) => column_wf(c),
        DiffModel::AlterColumn(_, a, b) => column_wf(a) && column_wf(b),
        _ => true,
    }
}

/// Operations whose forward SQL can all be rendered.
pub open spec fn hints_wf(ops: Seq<DiffModel>) -> bool {
    forall|k: int| 0 <= k < ops.len() ==> hint_wf(#[trigger] ops[k])
}

/// The operation that undoes an operation.
pub open spec fn inverse(op: DiffModel) -> DiffModel {
    match op {
        DiffModel::Create(e) => DiffModel::Drop(e),
        DiffModel::Drop(e) => DiffModel::Create(e),
        DiffModel::CreateColumn(t, c) => DiffModel::DropColumn(t, c),
        DiffModel::DropColumn(t, c) => DiffModel::CreateColumn(t, c),
        DiffModel::CreateVariant(t, v) => DiffModel::DropVariant(t, v),
        DiffModel::DropVariant(t, v) => DiffModel::CreateVariant(t, v),
        DiffModel::AlterColumn(t, a, b) => DiffModel::AlterColumn(t, b, a),
    }
}

/// The forward SQL of an operation. A new column gets a `DEFAULT` without a
/// value and a changed column gets a marker in place of its `ALTER`: both are
/// left for a human to complete, and neither runs as it stands.
pub open spec fn hint_sql(op: DiffModel) -> Seq<char> {
    match op {
        DiffModel::Create(e) => create_sql(e),
        DiffModel::Drop(e) => drop_sql(e),
        DiffModel::CreateColumn(t, c) => "ALTER TABLE \""@ + t + "\" ADD \""@ + c.name + "\" "@
            + pg_type(c.ty) + " DEFAULT /* TODO default value */;"@,
        DiffModel::DropColumn(t, c) => "ALTER TABLE \""@ + t + "\" DROP COLUMN \""@ + c.name
            + "\";"@,
        DiffModel::CreateVariant(t, v) => "ALTER TYPE \""@ + t + "\" ADD VALUE '"@ + v + "';"@,
        DiffModel::DropVariant(t, v) => "ALTER TYPE \""@ + t + "\" DROP VALUE '"@ + v + "';"@,
        DiffModel::AlterColumn(t, a, b) => "ALTER TABLE \""@ + t + "\" ALTER COLUMN \""@ + a.name
            + "\" /* manual migration required: "@ + column_sql(a) + " becomes "@ + column_sql(b)
            + " */;"@,
    }
}

/// The SQL that undoes an operation, read from the operation alone.
pub open spec fn revert_sql(op: DiffModel) -> Seq<char> {
    hint_sql(inverse(op))
}

impl Clone for DiffElement {
    fn clone(&self) -> (r: Self)
        ensures
            r@ == self@,
    {
        match self {
            DiffElement::Create(e) => DiffElement::Create(e.clone()),
            DiffElement::Drop(e) => DiffElement::Drop(e.clone()),
            DiffElement::CreateColumn(t, c) => DiffElement::CreateColumn(t.clone(), c.clone()),
            DiffElement::DropColumn(t, c) => DiffElement::DropColumn(t.clone(), c.clone()),
            DiffElement::CreateVariant(t, v) => DiffElement::CreateVariant(t.clone(), v.clone()),
            DiffElement::DropVariant(t, v) => DiffElement::DropVariant(t.clone(), v.clone()),
            DiffElement::AlterColumn(t, a, b) => DiffElement::AlterColumn(
                t.clone(),
                a.clone(),
                b.clone(),
            ),
        }
    }
}

impl PartialEq for DiffElement {
    fn eq(&self, other: &DiffElement) -> (r: bool) {
        match (self, other) {
            (DiffElement::Create(a), DiffElement::Create(b)) => a.eq(b),
            (DiffElement::Drop(a), DiffElement::Drop(b)) => a.eq(b),
            (DiffElement::CreateColumn(t, c), DiffElement::CreateColumn(u, d)) => t.eq(u) && c.eq(
                d,
            ),
            (DiffElement::DropColumn(t, c), DiffElement::DropColumn(u, d)) => t.eq(u) && c.eq(d),
            (DiffElement::CreateVariant(t, v), DiffElement::CreateVariant(u, w)) => t.eq(u)
                && v.eq(w),
            (DiffElement::DropVariant(t, v), DiffElement::DropVariant(u, w)) => t.eq(u) && v.eq(
                w,
            ),
            (DiffElement::AlterColumn(t, a, b), DiffElement::AlterColumn(u, c, d)) => t.eq(u)
                && a.eq(c) && b.eq(d),
            _ => false,
        }
    }
}

impl vstd::std_specs::cmp::PartialEqSpecImpl for DiffElement {
    open spec fn obeys_eq_spec() -> bool {
        true
    }

    open spec fn eq_spec(&self, other: &DiffElement) -> bool {
        self@ == other@
    }
}

impl Eq for DiffElement {

}

impl DiffElement {
    /// Whether the SQL of the operation can be rendered in both directions.
    pub fn is_renderable(&self) -> (r: bool)
        ensures
            r == op_wf(self@),
    {
        match self {
            DiffElement::Create(Element::Table(t)) | DiffElement::Drop(Element::Table(t)) => {
                t.is_well_formed()
            },
            DiffElement::CreateColumn(_, c) | DiffElement::DropColumn(_, c) => {
                c.ty.is_well_formed()
            },
            DiffElement::AlterColumn(_, a, b) => a.ty.is_well_formed() && b.ty.is_well_formed(),
            _ => true,
        }
    }

    /// Returns the operation that undoes this one.
    pub fn inverse(&self) -> (r: DiffElement)
        ensures
            r@ == inverse(self@),
    {
        match self {
            DiffElement::Create(e) => DiffElement::Drop(e.clone()),
            DiffElement::Drop(e) => DiffElement::Create(e.clone()),
            DiffElement::CreateColumn(t, c) => DiffElement::DropColumn(t.clone(), c.clone()),
            DiffElement::DropColumn(t, c) => DiffElement::CreateColumn(t.clone(), c.clone()),
            DiffElement::CreateVariant(t, v) => DiffElement::DropVariant(t.clone(), v.clone()),
            DiffElement::DropVariant(t, v) => DiffElement::CreateVariant(t.clone(), v.clone()),
            DiffElement::AlterColumn(t, a, b) => DiffElement::AlterColumn(
                t.clone(),
                b.clone(),
                a.clone(),
            ),
        }
    }

    /// Returns the hint of migration.
    pub fn hint(&self) -> (r: String)
        requires
            hint_wf(self@),
        ensures
            r@ == hint_sql(self@),
    {
        match self {
            DiffElement::Create(e) => e.create(),
            DiffElement::Drop(e) => e.drop(),
            DiffElement::CreateColumn(t, c) => {
                let mut r = "ALTER TABLE \"".to_owned();
                r.append(t.as_str());
                r.append("\" ADD \"");
                r.append(c.name.as_str());
                r.append("\" ");
                let ty = c.ty.to_postgres();
                r.append(ty.as_str());
                r.append(" DEFAULT /* TODO default value */;");
                r
            },
            DiffElement::DropColumn(t, c) => {
                let mut r = "ALTER TABLE \"".to_owned();
                r.append(t.as_str());
                r.append("\" DROP COLUMN \"");
                r.append(c.name.as_str());
                r.append("\";");
                r
            },
            DiffElement::CreateVariant(t, v) => {
                let mut r = "ALTER TYPE \"".to_owned();
                r.append(t.as_str());
                r.append("\" ADD VALUE '");
                r.append(v.as_str());
                r.append("';");
                r
            },
            DiffElement::DropVariant(t, v) => {
                let mut r = "ALTER TYPE \"".to_owned();
                r.append(t.as_str());
                r.append("\" DROP VALUE '");
                r.append(v.as_str());
                r.append("';");
                r
            },
            DiffElement::AlterColumn(t, a, b) => {
                let mut r = "ALTER TABLE \"".to_owned();
                r.append(t.as_str());
                r.append("\" ALTER COLUMN \"");
                r.append(a.name.as_str());
                r.append("\" /* manual migration required: ");
                let from = a.to_sql();
                r.append(from.as_str());
                r.append(" becomes ");
                let to = b.to_sql();
                r.append(to.as_str());
                r.append(" */;");
                r
            },
        }
    }

    /// Returns the hint to revert the migration.
    pub fn hint_revert(&self) -> (r: String)
        requires
            op_wf(self@),
        ensures
            r@ == revert_sql(self@),
    {
        self.inverse().hint()
    }
}


/// The variants of `vs` that `others` lacks, in order.
pub open spec fn missing(vs: Seq<Seq<char>>, others: Seq<Seq<char>>) -> Seq<Seq<char>> {
    vs.filter(|v: Seq<char>| !others.contains(v))
}

/// A `DropVariant` for each of `vs` that `others` lacks.
pub open spec fn variant_drops(vs: Seq<Seq<char>>, name: Seq<char>, others: Seq<Seq<char>>) -> Seq<
    DiffModel,
> {
    missing(vs, others).map_values(
        |v: Seq<char>| DiffModel::DropVariant(name, v),
    )
}

/// A `CreateVariant` for each of `vs` that `others` lacks.
pub open spec fn variant_creates(vs: Seq<Seq<char>>, name: Seq<char>, others: Seq<Seq<char>>) -> Seq<
    DiffModel,
> {
    missing(vs, others).map_values(
        |v: Seq<char>| DiffModel::CreateVariant(name, v),
    )
}

/// The variant changes from one enum to another: drops first, then creates,
/// by presence of each variant, not by position.
pub open spec fn enum_diff(before: EnumModel, after: EnumModel) -> Seq<DiffModel> {
    variant_drops(before.variants, before.name, after.variants) + variant_creates(
        after.variants,
        before.name,
        before.variants,
    )
}

/// What becomes of one column of a table: dropped when the other table has no
/// column of its name, marked for a manual migration when that column differs.
pub open spec fn column_step(c: ColumnModel, table: Seq<char>, after: Seq<ColumnModel>) -> Seq<
    DiffModel,
> {
    match first_named(after, c.name) {
        None => seq![DiffModel::DropColumn(table, c)],
        Some(d) => if d == c {
            Seq::empty()
        } else {
            seq![DiffModel::AlterColumn(table, c, d)]
        },
    }
}

/// What becomes of each column of a table, in order.
pub open spec fn column_changes(cs: Seq<ColumnModel>, table: Seq<char>, after: Seq<ColumnModel>) -> Seq<
    DiffModel,
>
    decreases cs.len(),
{
    if cs.len() == 0 {
        Seq::empty()
    } else {
        column_changes(cs.drop_last(), table, after) + column_step(cs.last(), table, after)
    }
}

/// A `CreateColumn` for each of `cs` whose name `before` lacks.
pub open spec fn column_creates(cs: Seq<ColumnModel>, table: Seq<char>, before: Seq<ColumnModel>) -> Seq<
    DiffModel,
> {
    cs.filter(|c: ColumnModel| first_named(before, c.name) is None).map_values(
        |c: ColumnModel| DiffModel::CreateColumn(table, c),
    )
}

/// The column changes from one table to another.
pub open spec fn table_diff(before: TableModel, after: TableModel) -> Seq<DiffModel> {
    column_changes(before.columns, before.name, after.columns) + column_creates(
        after.columns,
        before.name,
        before.columns,
    )
}

proof fn lemma_take_last<A>(s: Seq<A>, i: int)
    requires
        0 <= i < s.len(),
    ensures
        s.take(i + 1).drop_last() == s.take(i),
        s.take(i + 1).last() == s[i],
        s.take(i + 1).len() == i + 1,
{
    assert(s.take(i + 1).drop_last() =~= s.take(i));
}

/// Filtering and mapping one more element adds its image when it passes.
proof fn lemma_filter_map_step<A, B>(s: Seq<A>, p: spec_fn(A) -> bool, f: spec_fn(A) -> B, i: int)
    requires
        0 <= i < s.len(),
    ensures
        s.take(i + 1).filter(p).map_values(f) == s.take(i).filter(p).map_values(f) + if p(s[i]) {
            seq![f(s[i])]
        } else {
            Seq::<B>::empty()
        },
{
    reveal(Seq::filter);
    let t = s.take(i + 1);
    assert(t.drop_last() =~= s.take(i));
    let fs = s.take(i).filter(p);
    if p(s[i]) {
        assert(t.filter(p) == fs.push(s[i]));
        assert(fs.push(s[i]).map_values(f) =~= fs.map_values(f) + seq![f(s[i])]);
    } else {
        assert(t.filter(p) == fs);
        assert(fs.map_values(f) =~= fs.map_values(f) + Seq::<B>::empty());
    }
}

proof fn lemma_ops_push(ops: Seq<DiffElement>, op: DiffElement)
    ensures
        ops_model(ops.push(op)) == ops_model(ops) + seq![op@],
{
    assert(ops_model(ops.push(op)) =~= ops_model(ops) + seq![op@]);
}

proof fn lemma_ops_concat(a: Seq<DiffElement>, b: Seq<DiffElement>)
    ensures
        ops_model(a + b) == ops_model(a) + ops_model(b),
{
    assert(ops_model(a + b) =~= ops_model(a) + ops_model(b));
}

/// Computes the diff between two enums.
pub fn diff_enum(before: &Enum, after: &Enum) -> (r: Vec<DiffElement>)
    ensures
        ops_model(r@) == enum_diff(before@, after@),
        ops_wf(ops_model(r@)),
{
    let ghost bv = before@.variants;
    let ghost av = after@.variants;
    let mut vec: Vec<DiffElement> = Vec::new();
    let mut i: usize = 0;
    while i < before.variants.len()
        invariant
            i <= before.variants.len(),
            bv == before@.variants,
            av == after@.variants,
            ops_model(vec@) == variant_drops(bv.take(i as int), before@.name, av),
            ops_wf(ops_model(vec@)),
        decreases before.variants.len() - i,
    {
        proof {
            lemma_filter_map_step(
                bv,
                |v: Seq<char>| !av.contains(v),
                |v: Seq<char>| DiffModel::DropVariant(before@.name, v),
                i as int,
            );
        }
        if !contains_string(&after.variants, &before.variants[i]) {
            let op = DiffElement::DropVariant(before.name.clone(), before.variants[i].clone());
            proof {
                lemma_ops_push(vec@, op);
            }
            vec.push(op);
        }
        i += 1;
    }
    assert(bv.take(i as int) =~= bv);
    let ghost drops = ops_model(vec@);
    let mut j: usize = 0;
    while j < after.variants.len()
        invariant
            j <= after.variants.len(),
            bv == before@.variants,
            av == after@.variants,
            ops_model(vec@) == drops + variant_creates(av.take(j as int), before@.name, bv),
            ops_wf(ops_model(vec@)),
        decreases after.variants.len() - j,
    {
        proof {
            lemma_filter_map_step(
                av,
                |v: Seq<char>| !bv.contains(v),
                |v: Seq<char>| DiffModel::CreateVariant(before@.name, v),
                j as int,
            );
        }
        if !contains_string(&before.variants, &after.variants[j]) {
            let op = DiffElement::CreateVariant(before.name.clone(), after.variants[j].clone());
            proof {
                lemma_ops_push(vec@, op);
            }
            vec.push(op);
        }
        j += 1;
    }
    assert(av.take(j as int) =~= av);
    vec
}

/// Computes the diff between two tables. A column that keeps its name but
/// changes its type or uniqueness yields an `AlterColumn` marker.
pub fn diff_table(before: &Table, after: &Table) -> (r: Vec<DiffElement>)
    ensures
        ops_model(r@) == table_diff(before@, after@),
        table_wf(before@) && table_wf(after@) ==> ops_wf(ops_model(r@)),
{
    let ghost bc = before@.columns;
    let ghost ac = after@.columns;
    let mut vec: Vec<DiffElement> = Vec::new();
    let mut i: usize = 0;
    while i < before.columns.len()
        invariant
            i <= before.columns.len(),
            bc == before@.columns,
            ac == after@.columns,
            ops_model(vec@) == column_changes(bc.take(i as int), before@.name, ac),
            table_wf(before@) && table_wf(after@) ==> ops_wf(ops_model(vec@)),
        decreases before.columns.len() - i,
    {
        proof {
            lemma_take_last(bc, i as int);
        }
        let c = &before.columns[i];
        assert(table_wf(before@) ==> column_wf(bc[i as int]));
        match find_column(after, &c.name) {
            None => {
                let op = DiffElement::DropColumn(before.name.clone(), c.clone());
                proof {
                    lemma_ops_push(vec@, op);
                }
                vec.push(op);
            },
            Some(k) => {
                let d = &after.columns[k];
                assert(table_wf(after@) ==> column_wf(ac[k as int]));
                if !c.eq(d) {
                    let op = DiffElement::AlterColumn(before.name.clone(), c.clone(), d.clone());
                    proof {
                        lemma_ops_push(vec@, op);
                    }
                    vec.push(op);
                } else {
                    assert(ops_model(vec@) + Seq::empty() =~= ops_model(vec@));
                }
            },
        }
        i += 1;
    }
    assert(bc.take(i as int) =~= bc);
    let ghost drops = ops_model(vec@);
    let mut j: usize = 0;
    while j < after.columns.len()
        invariant
            j <= after.columns.len(),
            bc == before@.columns,
            ac == after@.columns,
            ops_model(vec@) == drops + column_creates(ac.take(j as int), before@.name, bc),
            table_wf(before@) && table_wf(after@) ==> ops_wf(ops_model(vec@)),
        decreases after.columns.len() - j,
    {
        proof {
            lemma_filter_map_step(
                ac,
                |c: ColumnModel| first_named(bc, c.name) is None,
                |c: ColumnModel| DiffModel::CreateColumn(before@.name, c),
                j as int,
            );
        }
        assert(table_wf(after@) ==> column_wf(ac[j as int]));
        if find_column(before, &after.columns[j].name).is_none() {
            let op = DiffElement::CreateColumn(before.name.clone(), after.columns[j].clone());
            proof {
                lemma_ops_push(vec@, op);
            }
            vec.push(op);
        }
        j += 1;
    }
    assert(ac.take(j as int) =~= ac);
    vec
}


/// What becomes of one enum: dropped when the other snapshot has no enum of
/// its name, diffed variant by variant when that enum differs.
pub open spec fn enum_step(e: EnumModel, after: Seq<EnumModel>) -> Seq<DiffModel> {
    match first_named(after, e.name) {
        None => seq![DiffModel::Drop(ElementModel::Enum(e))],
        Some(x) => if x == e {
            Seq::empty()
        } else {
            enum_diff(e, x)
        },
    }
}

/// What becomes of each enum, in order.
pub open spec fn enum_changes(es: Seq<EnumModel>, after: Seq<EnumModel>) -> Seq<DiffModel>
    decreases es.len(),
{
    if es.len() == 0 {
        Seq::empty()
    } else {
        enum_changes(es.drop_last(), after) + enum_step(es.last(), after)
    }
}

/// A `Create` for each of `es` whose name `before` lacks.
pub open spec fn enum_creates(es: Seq<EnumModel>, before: Seq<EnumModel>) -> Seq<DiffModel> {
    es.filter(|e: EnumModel| first_named(before, e.name) is None).map_values(
        |e: EnumModel| DiffModel::Create(ElementModel::Enum(e)),
    )
}

/// What becomes of one table: dropped when the other snapshot has no table of
/// its name, diffed column by column when that table differs.
pub open spec fn table_step(t: TableModel, after: Seq<TableModel>) -> Seq<DiffModel> {
    match first_named(after, t.name) {
        None => seq![DiffModel::Drop(ElementModel::Table(t))],
        Some(x) => if x == t {
            Seq::empty()
        } else {
            table_diff(t, x)
        },
    }
}

/// What becomes of each table, in order.
pub open spec fn table_changes(ts: Seq<TableModel>, after: Seq<TableModel>) -> Seq<DiffModel>
    decreases ts.len(),
{
    if ts.len() == 0 {
        Seq::empty()
    } else {
        table_changes(ts.drop_last(), after) + table_step(ts.last(), after)
    }
}

/// A `Create` for each of `ts` whose name `before` lacks.
pub open spec fn table_creates(ts: Seq<TableModel>, before: Seq<TableModel>) -> Seq<DiffModel> {
    ts.filter(|t: TableModel| first_named(before, t.name) is None).map_values(
        |t: TableModel| DiffModel::Create(ElementModel::Table(t)),
    )
}

/// A snapshot of a database: its enum types and its tables.
pub type State = (Vec<Enum>, Vec<Table>);

/// The mathematical model of a snapshot.
pub struct StateModel {
    pub enums: Seq<EnumModel>,
    pub tables: Seq<TableModel>,
}

/// The model of a snapshot.
pub open spec fn state_model(s: State) -> StateModel {
    StateModel { enums: enums_model(s.0@), tables: tables_model(s.1@) }
}

/// Tables whose column types can all be rendered.
pub open spec fn tables_wf(ts: Seq<TableModel>) -> bool {
    forall|k: int| 0 <= k < ts.len() ==> table_wf(#[trigger] ts[k])
}

/// Names are unique within each kind.
pub open spec fn state_wf(s: StateModel) -> bool {
    names_unique(s.enums) && names_unique(s.tables)
}

/// The operations from one snapshot to another, in this order: the changes
/// of the enums of `before`, the enums new in `after`, the changes of the
/// tables of `before`, the tables new in `after`.
pub open spec fn state_diff(before: StateModel, after: StateModel) -> Seq<DiffModel> {
    enum_changes(before.enums, after.enums) + enum_creates(after.enums, before.enums)
        + table_changes(before.tables, after.tables) + table_creates(after.tables, before.tables)
}

/// The ordered operations between two database states.
#[derive(Debug)]
pub struct Diff(pub Vec<DiffElement>);

impl View for Diff {
    type V = Seq<DiffModel>;

    open spec fn view(&self) -> Seq<DiffModel> {
        ops_model(self.0@)
    }
}

/// Computes the diff between two states.
pub fn diff(before: State, after: State) -> (r: Diff)
    ensures
        r@ == state_diff(state_model(before), state_model(after)),
        tables_wf(state_model(before).tables) && tables_wf(state_model(after).tables) ==> ops_wf(
            r@,
        ),
{
    let (before_enums, before_tables) = before;
    let (after_enums, after_tables) = after;
    let ghost be = enums_model(before_enums@);
    let ghost ae = enums_model(after_enums@);
    let ghost bt = tables_model(before_tables@);
    let ghost at = tables_model(after_tables@);
    let ghost wf = tables_wf(bt) && tables_wf(at);
    let mut vec: Vec<DiffElement> = Vec::new();

    let mut i: usize = 0;
    while i < before_enums.len()
        invariant
            i <= before_enums.len(),
            be == enums_model(before_enums@),
            ae == enums_model(after_enums@),
            ops_model(vec@) == enum_changes(be.take(i as int), ae),
            wf == (tables_wf(bt) && tables_wf(at)),
            bt == tables_model(before_tables@),
            at == tables_model(after_tables@),
            wf ==> ops_wf(ops_model(vec@)),
        decreases before_enums.len() - i,
    {
        proof {
            lemma_take_last(be, i as int);
        }
        let e = &before_enums[i];
        match find_enum(&after_enums, &e.name) {
            None => {
                let op = DiffElement::Drop(Element::Enum(e.clone()));
                proof {
                    lemma_ops_push(vec@, op);
                }
                vec.push(op);
            },
            Some(k) => {
                let x = &after_enums[k];
                if !e.eq(x) {
                    let mut sub = diff_enum(e, x);
                    proof {
                        lemma_ops_concat(vec@, sub@);
                    }
                    vec.append(&mut sub);
                } else {
                    assert(ops_model(vec@) + Seq::empty() =~= ops_model(vec@));
                }
            },
        }
        i += 1;
    }
    assert(be.take(i as int) =~= be);
    let ghost part = ops_model(vec@);

    let mut i: usize = 0;
    while i < after_enums.len()
        invariant
            i <= after_enums.len(),
            be == enums_model(before_enums@),
            ae == enums_model(after_enums@),
            ops_model(vec@) == part + enum_creates(ae.take(i as int), be),
            wf == (tables_wf(bt) && tables_wf(at)),
            bt == tables_model(before_tables@),
            at == tables_model(after_tables@),
            wf ==> ops_wf(ops_model(vec@)),
        decreases after_enums.len() - i,
    {
        proof {
            lemma_filter_map_step(
                ae,
                |e: EnumModel| first_named(be, e.name) is None,
                |e: EnumModel| DiffModel::Create(ElementModel::Enum(e)),
                i as int,
            );
        }
        if find_enum(&before_enums, &after_enums[i].name).is_none() {
            let op = DiffElement::Create(Element::Enum(after_enums[i].clone()));
            proof {
                lemma_ops_push(vec@, op);
            }
            vec.push(op);
        }
        i += 1;
    }
    assert(ae.take(i as int) =~= ae);
    let ghost part = ops_model(vec@);

    let mut i: usize = 0;
    while i < before_tables.len()
        invariant
            i <= before_tables.len(),
            bt == tables_model(before_tables@),
            at == tables_model(after_tables@),
            ops_model(vec@) == part + table_changes(bt.take(i as int), at),
            wf == (tables_wf(bt) && tables_wf(at)),
            wf ==> ops_wf(ops_model(vec@)),
        decreases before_tables.len() - i,
    {
        proof {
            lemma_take_last(bt, i as int);
        }
        let t = &before_tables[i];
        assert(wf ==> table_wf(bt[i as int]));
        match find_table(&after_tables, &t.name) {
            None => {
                let op = DiffElement::Drop(Element::Table(t.clone()));
                proof {
                    lemma_ops_push(vec@, op);
                }
                vec.push(op);
            },
            Some(k) => {
                let x = &after_tables[k];
                assert(wf ==> table_wf(at[k as int]));
                if !t.eq(x) {
                    let mut sub = diff_table(t, x);
                    proof {
                        lemma_ops_concat(vec@, sub@);
                    }
                    vec.append(&mut sub);
                } else {
                    assert(ops_model(vec@) + Seq::empty() =~= ops_model(vec@));
                }
            },
        }
        i += 1;
    }
    assert(bt.take(i as int) =~= bt);
    let ghost part = ops_model(vec@);

    let mut i: usize = 0;
    while i < after_tables.len()
        invariant
            i <= after_tables.len(),
            bt == tables_model(before_tables@),
            at == tables_model(after_tables@),
            ops_model(vec@) == part + table_creates(at.take(i as int), bt),
            wf == (tables_wf(bt) && tables_wf(at)),
            wf ==> ops_wf(ops_model(vec@)),
        decreases after_tables.len() - i,
    {
        proof {
            lemma_filter_map_step(
                at,
                |t: TableModel| first_named(bt, t.name) is None,
                |t: TableModel| DiffModel::Create(ElementModel::Table(t)),
                i as int,
            );
        }
        assert(wf ==> table_wf(at[i as int]));
        if find_table(&before_tables, &after_tables[i].name).is_none() {
            let op = DiffElement::Create(Element::Table(after_tables[i].clone()));
            proof {
                lemma_ops_push(vec@, op);
            }
            vec.push(op);
        }
        i += 1;
    }
    assert(at.take(i as int) =~= at);
    Diff(vec)
}


/// The forward SQL of each operation, in order.
pub open spec fn hints(ops: Seq<DiffModel>) -> Seq<Seq<char>> {
    ops.map_values(|op: DiffModel| hint_sql(op))
}

/// The reverse SQL of each operation, in order.
pub open spec fn reverts(ops: Seq<DiffModel>) -> Seq<Seq<char>> {
    ops.map_values(|op: DiffModel| revert_sql(op))
}

/// Whether an operation is a marker for a migration to be written by hand.
pub open spec fn is_manual(op: DiffModel) -> bool {
    op is AlterColumn
}

impl Diff {
    /// Returns a hint of the migration request: the forward SQL of each
    /// operation, one per line.
    pub fn hint(&self) -> (r: String)
        requires
            hints_wf(self@),
        ensures
            r@ == join(hints(self@), "\n"@),
    {
        let ghost parts = hints(self@);
        let mut r = String::new();
        let mut i: usize = 0;
        while i < self.0.len()
            invariant
                i <= self.0.len(),
                hints_wf(self@),
                parts == hints(self@),
                r@ == join(parts.take(i as int), "\n"@),
            decreases self.0.len() - i,
        {
            proof {
                crate::schema::lemma_join_step(parts, "\n"@, i as int);
            }
            if i > 0 {
                r.append("\n");
            }
            assert(hint_wf(self@[i as int]));
            let h = self.0[i].hint();
            r.append(h.as_str());
            i += 1;
        }
        assert(parts.take(i as int) =~= parts);
        r
    }

    /// Returns a hint of the revert migration request: the reverse SQL of each
    /// operation, one per line, in the same order.
    pub fn hint_revert(&self) -> (r: String)
        requires
            ops_wf(self@),
        ensures
            r@ == join(reverts(self@), "\n"@),
    {
        let ghost parts = reverts(self@);
        let mut r = String::new();
        let mut i: usize = 0;
        while i < self.0.len()
            invariant
                i <= self.0.len(),
                ops_wf(self@),
                parts == reverts(self@),
                r@ == join(parts.take(i as int), "\n"@),
            decreases self.0.len() - i,
        {
            proof {
                crate::schema::lemma_join_step(parts, "\n"@, i as int);
            }
            if i > 0 {
                r.append("\n");
            }
            assert(op_wf(self@[i as int]));
            let h = self.0[i].hint_revert();
            r.append(h.as_str());
            i += 1;
        }
        assert(parts.take(i as int) =~= parts);
        r
    }

    /// Order the operations of the diff; they already come in the order of
    /// the differ.
    pub fn order(self) -> (r: Diff)
        ensures
            r@ == self@,
    {
        self
    }

    /// Whether some operation asks for a migration to be written by hand.
    pub fn needs_manual_migration(&self) -> (r: bool)
        ensures
            r == exists|k: int| 0 <= k < self@.len() && is_manual(#[trigger] self@[k]),
    {
        let mut i: usize = 0;
        while i < self.0.len()
            invariant
                i <= self.0.len(),
                forall|k: int| 0 <= k < i ==> !is_manual(#[trigger] self@[k]),
            decreases self.0.len() - i,
        {
            if let DiffElement::AlterColumn(_, _, _) = &self.0[i] {
                assert(is_manual(self@[i as int]));
                return true;
            }
            i += 1;
        }
        false
    }

    /// Whether the SQL of every operation can be rendered in both directions.
    pub fn is_renderable(&self) -> (r: bool)
        ensures
            r == ops_wf(self@),
    {
        let mut i: usize = 0;
        while i < self.0.len()
            invariant
                i <= self.0.len(),
                forall|k: int| 0 <= k < i ==> op_wf(#[trigger] self@[k]),
            decreases self.0.len() - i,
        {
            if !self.0[i].is_renderable() {
                assert(!op_wf(self@[i as int]));
                return false;
            }
            i += 1;
        }
        true
    }

    /// Whether the diff holds no operation.
    pub fn is_empty(&self) -> (r: bool)
        ensures
            r == (self@.len() == 0),
    {
        self.0.len() == 0
    }
}


proof fn lemma_enum_changes_self(es: Seq<EnumModel>, n: int)
    requires
        names_unique(es),
        0 <= n <= es.len(),
    ensures
        enum_changes(es.take(n), es) == Seq::<DiffModel>::empty(),
        enum_creates(es.take(n), es) == Seq::<DiffModel>::empty(),
    decreases n,
{
    if n > 0 {
        lemma_enum_changes_self(es, n - 1);
        lemma_take_last(es, n - 1);
        lemma_first_named_unique(es, n - 1);
        lemma_filter_map_step(
            es,
            |e: EnumModel| first_named(es, e.name) is None,
            |e: EnumModel| DiffModel::Create(ElementModel::Enum(e)),
            n - 1,
        );
        assert(enum_changes(es.take(n), es) =~= Seq::<DiffModel>::empty());
        assert(enum_creates(es.take(n), es) =~= Seq::<DiffModel>::empty());
    }
}

proof fn lemma_table_changes_self(ts: Seq<TableModel>, n: int)
    requires
        names_unique(ts),
        0 <= n <= ts.len(),
    ensures
        table_changes(ts.take(n), ts) == Seq::<DiffModel>::empty(),
        table_creates(ts.take(n), ts) == Seq::<DiffModel>::empty(),
    decreases n,
{
    if n > 0 {
        lemma_table_changes_self(ts, n - 1);
        lemma_take_last(ts, n - 1);
        lemma_first_named_unique(ts, n - 1);
        lemma_filter_map_step(
            ts,
            |t: TableModel| first_named(ts, t.name) is None,
            |t: TableModel| DiffModel::Create(ElementModel::Table(t)),
            n - 1,
        );
        assert(table_changes(ts.take(n), ts) =~= Seq::<DiffModel>::empty());
        assert(table_creates(ts.take(n), ts) =~= Seq::<DiffModel>::empty());
    }
}

/// The diff from a snapshot to itself holds no operation.
pub proof fn lemma_diff_self_is_empty(s: StateModel)
    requires
        state_wf(s),
    ensures
        state_diff(s, s) == Seq::<DiffModel>::empty(),
{
    lemma_enum_changes_self(s.enums, s.enums.len() as int);
    lemma_table_changes_self(s.tables, s.tables.len() as int);
    assert(s.enums.take(s.enums.len() as int) =~= s.enums);
    assert(s.tables.take(s.tables.len() as int) =~= s.tables);
    assert(state_diff(s, s) =~= Seq::<DiffModel>::empty());
}

/// Every operation's reverse SQL is the forward SQL of its inverse, which
/// swaps a create with the drop of the same element, column or variant;
/// inverting twice gives the operation back. For a whole diff, the reverse
/// SQL of each operation is the forward SQL of the inverted operations.
pub proof fn lemma_revert_is_inverse(op: DiffModel, ops: Seq<DiffModel>)
    ensures
        revert_sql(op) == hint_sql(inverse(op)),
        inverse(inverse(op)) == op,
        op matches DiffModel::Create(e) ==> revert_sql(op) == hint_sql(DiffModel::Drop(e)),
        op matches DiffModel::Drop(e) ==> revert_sql(op) == hint_sql(DiffModel::Create(e)),
        op matches DiffModel::CreateColumn(t, c) ==> revert_sql(op) == hint_sql(
            DiffModel::DropColumn(t, c),
        ),
        op matches DiffModel::DropColumn(t, c) ==> revert_sql(op) == hint_sql(
            DiffModel::CreateColumn(t, c),
        ),
        op matches DiffModel::CreateVariant(t, v) ==> revert_sql(op) == hint_sql(
            DiffModel::DropVariant(t, v),
        ),
        op matches DiffModel::DropVariant(t, v) ==> revert_sql(op) == hint_sql(
            DiffModel::CreateVariant(t, v),
        ),
        reverts(ops) == hints(ops.map_values(|o: DiffModel| inverse(o))),
{
    assert(reverts(ops) =~= hints(ops.map_values(|o: DiffModel| inverse(o))));
}

/// Filtering keeps a sequence free of duplicates.
proof fn lemma_filter_unique<A>(s: Seq<A>, p: spec_fn(A) -> bool)
    requires
        s.no_duplicates(),
    ensures
        s.filter(p).no_duplicates(),
    decreases s.len(),
{
    reveal(Seq::filter);
    if s.len() > 0 {
        let rest = s.drop_last();
        let x = s.last();
        assert(rest.no_duplicates());
        lemma_filter_unique(rest, p);
        let f = rest.filter(p);
        if p(x) {
            if f.contains(x) {
                rest.lemma_filter_contains_rev(p, x);
                let k = choose|k: int| 0 <= k < rest.len() && rest[k] == x;
                assert(s[k] == s[s.len() - 1]);
            }
            assert forall|i: int, j: int|
                0 <= i < f.push(x).len() && 0 <= j < f.push(x).len() && i != j implies f.push(
                x,
            )[i] != f.push(x)[j] by {
                if i < f.len() && j == f.len() {
                    assert(f.contains(f[i]));
                }
                if j < f.len() && i == f.len() {
                    assert(f.contains(f[j]));
                }
            }
        }
    }
}

/// Membership of a concatenation is membership of either part.
proof fn lemma_concat_contains<A>(a: Seq<A>, b: Seq<A>)
    ensures
        forall|x: A| #[trigger] (a + b).contains(x) <==> (a.contains(x) || b.contains(x)),
{
    assert forall|x: A| #[trigger] (a + b).contains(x) <==> (a.contains(x) || b.contains(x)) by {
        if (a + b).contains(x) {
            let k = choose|k: int| 0 <= k < (a + b).len() && (a + b)[k] == x;
            if k >= a.len() {
                assert(b[k - a.len()] == x);
            }
        }
        if a.contains(x) {
            let k = choose|k: int| 0 <= k < a.len() && a[k] == x;
            assert((a + b)[k] == x);
        }
        if b.contains(x) {
            let k = choose|k: int| 0 <= k < b.len() && b[k] == x;
            assert((a + b)[a.len() + k] == x);
        }
    }
}

/// The operations made by `g` for the variants of `vs` that `others` lacks:
/// each once, and nothing else.
proof fn lemma_missing_variants(
    vs: Seq<Seq<char>>,
    others: Seq<Seq<char>>,
    g: spec_fn(Seq<char>) -> DiffModel,
)
    requires
        vs.no_duplicates(),
        forall|a: Seq<char>, b: Seq<char>| #[trigger] g(a) == #[trigger] g(b) ==> a == b,
    ensures
        missing(vs, others).map_values(g).no_duplicates(),
        forall|v: Seq<char>|
            #[trigger] missing(vs, others).map_values(g).contains(g(v))
                <==> (vs.contains(v) && !others.contains(v)),
        forall|op: DiffModel| #[trigger]
            missing(vs, others).map_values(g).contains(op) ==> exists|
                v: Seq<char>,
            | op == #[trigger] g(v),
{
    let p = |v: Seq<char>| !others.contains(v);
    let f = missing(vs, others);
    let ops = f.map_values(g);
    lemma_filter_unique(vs, p);
    assert(injective(g));
    f.lemma_no_duplicates_injective(g);
    assert forall|v: Seq<char>| #[trigger] ops.contains(g(v)) <==> (vs.contains(v) && !others.contains(
        v,
    )) by {
        if ops.contains(g(v)) {
            let k = choose|k: int| 0 <= k < ops.len() && ops[k] == g(v);
            assert(f[k] == v);
            assert(f.contains(v));
            vs.lemma_filter_contains_rev(p, v);
            vs.lemma_filter_pred(p, k);
        }
        if vs.contains(v) && !others.contains(v) {
            let i = choose|i: int| 0 <= i < vs.len() && vs[i] == v;
            vs.lemma_filter_contains(p, i);
            let k = choose|k: int| 0 <= k < f.len() && f[k] == v;
            assert(ops[k] == g(v));
        }
    }
    assert forall|op: DiffModel| #[trigger] ops.contains(op) implies exists|v: Seq<char>| op == #[trigger] g(v) by {
        let k = choose|k: int| 0 <= k < ops.len() && ops[k] == op;
        assert(op == g(f[k]));
    }
}

/// Between two enums whose variants are each listed once, the diff holds
/// exactly one `CreateVariant` for each variant of `after` that `before` lacks,
/// exactly one `DropVariant` for each variant of `before` that `after` lacks,
/// and nothing else: no operation for a variant that both hold.
pub proof fn lemma_enum_diff_symmetry(before: EnumModel, after: EnumModel)
    requires
        before.variants.no_duplicates(),
        after.variants.no_duplicates(),
    ensures
        enum_diff(before, after).no_duplicates(),
        forall|v: Seq<char>| #[trigger]
            enum_diff(before, after).contains(DiffModel::CreateVariant(before.name, v)) <==> (
            after.variants.contains(v) && !before.variants.contains(v)),
        forall|v: Seq<char>| #[trigger]
            enum_diff(before, after).contains(DiffModel::DropVariant(before.name, v)) <==> (
            before.variants.contains(v) && !after.variants.contains(v)),
        forall|op: DiffModel| #[trigger]
            enum_diff(before, after).contains(op) ==> (op is CreateVariant && op->CreateVariant_0
                == before.name) || (op is DropVariant && op->DropVariant_0 == before.name),
{
    let d = variant_drops(before.variants, before.name, after.variants);
    let c = variant_creates(after.variants, before.name, before.variants);
    let gd = |v: Seq<char>| DiffModel::DropVariant(before.name, v);
    let gc = |v: Seq<char>| DiffModel::CreateVariant(before.name, v);
    lemma_missing_variants(before.variants, after.variants, gd);
    lemma_missing_variants(after.variants, before.variants, gc);
    lemma_concat_contains(d, c);
    assert forall|v: Seq<char>| #[trigger]
        enum_diff(before, after).contains(DiffModel::CreateVariant(before.name, v)) <==> (
        after.variants.contains(v) && !before.variants.contains(v)) by {
        assert(gc(v) == DiffModel::CreateVariant(before.name, v));
        if d.contains(gc(v)) {
            let w = choose|w: Seq<char>| gc(v) == #[trigger] gd(w);
        }
    }
    assert forall|v: Seq<char>| #[trigger]
        enum_diff(before, after).contains(DiffModel::DropVariant(before.name, v)) <==> (
        before.variants.contains(v) && !after.variants.contains(v)) by {
        assert(gd(v) == DiffModel::DropVariant(before.name, v));
        if c.contains(gd(v)) {
            let w = choose|w: Seq<char>| gd(v) == #[trigger] gc(w);
        }
    }
    assert forall|op: DiffModel| #[trigger]
        enum_diff(before, after).contains(op) implies (op is CreateVariant && op->CreateVariant_0
            == before.name) || (op is DropVariant && op->DropVariant_0 == before.name) by {
        if d.contains(op) {
            let w = choose|w: Seq<char>| op == #[trigger] gd(w);
        } else {
            let w = choose|w: Seq<char>| op == #[trigger] gc(w);
        }
    }
    assert forall|i: int, j: int|
        0 <= i < (d + c).len() && 0 <= j < (d + c).len() && i != j implies (d + c)[i] != (d
            + c)[j] by {
        if i < d.len() && j >= d.len() {
            assert(d.contains((d + c)[i]));
            assert(c.contains((d + c)[j]));
            let w = choose|w: Seq<char>| (d + c)[i] == #[trigger] gd(w);
            let u = choose|u: Seq<char>| (d + c)[j] == #[trigger] gc(u);
        }
        if j < d.len() && i >= d.len() {
            assert(d.contains((d + c)[j]));
            assert(c.contains((d + c)[i]));
            let w = choose|w: Seq<char>| (d + c)[j] == #[trigger] gd(w);
            let u = choose|u: Seq<char>| (d + c)[i] == #[trigger] gc(u);
        }
    }
}

} // verus!
