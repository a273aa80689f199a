//! The table order resolver: tables sorted so that each comes after every
//! table it refers to.
use vstd::prelude::*;
use vstd::set_lib::{lemma_int_range, lemma_len_subset, lemma_subset_equality, set_int_range};

use crate::diff::{contains_string, names_unique, tables_model, Named};
use crate::schema::{strings_model, table_deps, Table, TableModel};

verus! {

/// The names of the tables, in order.
pub open spec fn names(ts: Seq<TableModel>) -> Seq<Seq<char>> {
    ts.map_values(|t: TableModel| t.name)
}

/// The names are unique, and every table comes after each table that it
/// refers to.
pub open spec fn respects_deps(ts: Seq<TableModel>) -> bool {
    &&& names_unique(ts)
    &&& forall|i: int, d: Seq<char>|
        0 <= i < ts.len() && #[trigger] table_deps(ts[i]).contains(d) ==> names(ts).take(
            i,
        ).contains(d)
}

/// `p` sends each position of `r` to a distinct position of `t` holding the
/// same table.
pub open spec fn index_map(p: Seq<int>, r: Seq<TableModel>, t: Seq<TableModel>) -> bool {
    &&& p.len() == r.len()
    &&& p.no_duplicates()
    &&& forall|k: int| 0 <= k < p.len() ==> 0 <= #[trigger] p[k] < t.len() && r[k] == t[p[k]]
}

/// `r` holds the tables of `t`, each once, in some order.
pub open spec fn reorders(r: Seq<TableModel>, t: Seq<TableModel>) -> bool {
    r.len() == t.len() && exists|p: Seq<int>| index_map(p, r, t)
}

/// Tables with distinct names that some order of theirs puts each after the
/// tables it refers to: no cycle and no reference to a missing table.
pub open spec fn orderable(t: Seq<TableModel>) -> bool {
    names_unique(t) && exists|o: Seq<TableModel>| reorders(o, t) && respects_deps(o)
}

/// Whether a table is placed next after `placed`: its name is new and every
/// table it refers to is placed.
pub open spec fn placeable(t: TableModel, placed: Seq<TableModel>) -> bool {
    &&& !names(placed).contains(t.name)
    &&& forall|d: Seq<char>| #[trigger] table_deps(t).contains(d) ==> names(placed).contains(d)
}

/// The placed tables after a pass has looked at the first `k` tables of `ts`,
/// in their order, starting from `placed`.
pub open spec fn scan(ts: Seq<TableModel>, placed: Seq<TableModel>, k: nat) -> Seq<TableModel>
    decreases k,
{
    if k == 0 {
        placed
    } else {
        let before = scan(ts, placed, (k - 1) as nat);
        if placeable(ts[k - 1], before) {
            before.push(ts[k - 1])
        } else {
            before
        }
    }
}

/// The placed tables after `p` full passes over `ts`.
pub open spec fn passes(ts: Seq<TableModel>, p: nat) -> Seq<TableModel>
    decreases p,
{
    if p == 0 {
        Seq::empty()
    } else {
        scan(ts, passes(ts, (p - 1) as nat), ts.len())
    }
}

/// The placed tables after as many passes as there are tables.
pub open spec fn placement(ts: Seq<TableModel>) -> Seq<TableModel> {
    passes(ts, ts.len())
}

proof fn lemma_indices_bounded(p: Seq<int>, n: int)
    requires
        0 <= n,
        p.no_duplicates(),
        forall|k: int| 0 <= k < p.len() ==> 0 <= #[trigger] p[k] < n,
    ensures
        p.len() <= n,
{
    p.unique_seq_to_set();
    lemma_int_range(0, n);
    assert(p.to_set().subset_of(set_int_range(0, n)));
    lemma_len_subset(p.to_set(), set_int_range(0, n));
}

/// A reordering with unique names comes from tables with unique names.
proof fn lemma_reorder_unique_names(r: Seq<TableModel>, t: Seq<TableModel>)
    requires
        reorders(r, t),
        names_unique(r),
    ensures
        names_unique(t),
{
    let p = choose|p: Seq<int>| index_map(p, r, t);
    assert forall|i: int, j: int| 0 <= i < j < t.len() implies t[i].key() != t[j].key() by {
        lemma_index_map_onto(p, r, t, i);
        lemma_index_map_onto(p, r, t, j);
        let k = choose|k: int| 0 <= k < p.len() && p[k] == i;
        let l = choose|l: int| 0 <= l < p.len() && p[l] == j;
        assert(r[k] == t[i]);
        assert(r[l] == t[j]);
        if k < l {
            assert(r[k].key() != r[l].key());
        } else {
            assert(r[l].key() != r[k].key());
        }
    }
}

/// Where fewer names are placed than an order with unique names holds, the
/// order has a first table whose name is not placed.
proof fn lemma_first_unplaced(o: Seq<TableModel>, placed: Seq<Seq<char>>) -> (m: int)
    requires
        names_unique(o),
        placed.len() < o.len(),
    ensures
        0 <= m < o.len(),
        !placed.contains(o[m].name),
        forall|j: int| 0 <= j < m ==> placed.contains(#[trigger] o[j].name),
{
    let ns = names(o);
    if forall|k: int| 0 <= k < o.len() ==> placed.contains(#[trigger] o[k].name) {
        assert(ns.no_duplicates()) by {
            assert forall|i: int, j: int| 0 <= i < ns.len() && 0 <= j < ns.len() && i != j implies ns[i]
                != ns[j] by {
                if i < j {
                    assert(o[i].key() != o[j].key());
                } else {
                    assert(o[j].key() != o[i].key());
                }
            }
        }
        ns.unique_seq_to_set();
        placed.lemma_cardinality_of_set();
        assert(ns.to_set().subset_of(placed.to_set())) by {
            assert forall|x: Seq<char>| ns.to_set().contains(x) implies placed.to_set().contains(
                x,
            ) by {
                let k = choose|k: int| 0 <= k < ns.len() && ns[k] == x;
                assert(placed.contains(o[k].name));
            }
        }
        lemma_len_subset(ns.to_set(), placed.to_set());
        assert(false);
    }
    let k = choose|k: int| 0 <= k < o.len() && !placed.contains(#[trigger] o[k].name);
    lemma_first_unplaced_below(o, placed, k)
}

proof fn lemma_first_unplaced_below(o: Seq<TableModel>, placed: Seq<Seq<char>>, k: int) -> (m: int)
    requires
        0 <= k < o.len(),
        !placed.contains(o[k].name),
    ensures
        0 <= m <= k,
        !placed.contains(o[m].name),
        forall|j: int| 0 <= j < m ==> placed.contains(#[trigger] o[j].name),
    decreases k,
{
    if forall|j: int| 0 <= j < k ==> placed.contains(#[trigger] o[j].name) {
        k
    } else {
        let j = choose|j: int| 0 <= j < k && !placed.contains(#[trigger] o[j].name);
        lemma_first_unplaced_below(o, placed, j)
    }
}

/// Whether every name of `deps` is in `placed`.
fn all_placed(deps: &Vec<String>, placed: &Vec<String>) -> (r: bool)
    ensures
        r == forall|d: Seq<char>|
            strings_model(deps@).contains(d) ==> strings_model(placed@).contains(d),
{
    let mut i: usize = 0;
    while i < deps.len()
        invariant
            i <= deps.len(),
            forall|k: int| 0 <= k < i ==> strings_model(placed@).contains(#[trigger] strings_model(deps@)[k]),
        decreases deps.len() - i,
    {
        if !contains_string(placed, &deps[i]) {
            assert(strings_model(deps@).contains(strings_model(deps@)[i as int]));
            return false;
        }
        i += 1;
    }
    true
}

/// Sorts the tables so that each comes after every table it refers to, by
/// passes over the tables in their given order, as many passes as there are
/// tables: a table is placed once its name is new and every table it refers
/// to is placed. Returns `None` when that leaves a table out: a cycle, a
/// reference to a missing table, or a repeated name.
pub fn resolve_order(tables: &Vec<Table>) -> (r: Option<Vec<Table>>)
    ensures
        r matches Some(v) ==> tables_model(v@) == placement(tables_model(tables@)),
        r matches Some(v) ==> reorders(tables_model(v@), tables_model(tables@)) && respects_deps(
            tables_model(v@),
        ),
        r is Some <==> orderable(tables_model(tables@)),
{
    let ghost input = tables_model(tables@);
    let ghost ord = orderable(input);
    let n = tables.len();
    let mut current: Vec<String> = Vec::new();
    let mut output: Vec<Table> = Vec::new();
    let ghost mut idx: Seq<int> = Seq::empty();
    proof {
        assert(tables_model(output@) =~= Seq::<TableModel>::empty());
        assert(strings_model(current@) =~= names(tables_model(output@)));
    }
    let mut pass: usize = 0;
    while pass < n
        invariant
            n == tables.len(),
            input == tables_model(tables@),
            ord == orderable(input),
            strings_model(current@) == names(tables_model(output@)),
            index_map(idx, tables_model(output@), input),
            respects_deps(tables_model(output@)),
            tables_model(output@) == passes(input, pass as nat),
            ord ==> output.len() >= pass,
        decreases n - pass,
    {
        let ghost start_out = tables_model(output@);
        let ghost start_len = output.len() as int;
        let ghost start_cur = strings_model(current@);
        // When an order exists and some table is left, one of them can be
        // placed in this pass: the first of the order that is not placed.
        let ghost mut target: int = -1;
        proof {
            if ord && start_len < n {
                let o = choose|o: Seq<TableModel>| reorders(o, input) && respects_deps(o);
                let p = choose|p: Seq<int>| index_map(p, o, input);
                let m = lemma_first_unplaced(o, start_cur);
                target = p[m];
                assert forall|d: Seq<char>| #[trigger]
                    table_deps(input[target]).contains(d) implies start_cur.contains(d) by {
                    assert(table_deps(o[m]).contains(d));
                    assert(names(o).take(m).contains(d));
                    let j = choose|j: int| 0 <= j < m && names(o).take(m)[j] == d;
                    assert(start_cur.contains(o[j].name));
                }
            }
        }
        let mut i: usize = 0;
        while i < n
            invariant
                n == tables.len(),
                input == tables_model(tables@),
                ord == orderable(input),
                strings_model(current@) == names(tables_model(output@)),
                index_map(idx, tables_model(output@), input),
                respects_deps(tables_model(output@)),
                start_len <= output.len(),
                start_cur.len() == start_len,
                strings_model(current@).take(start_len) == start_cur,
                ord && start_len < n ==> 0 <= target < n,
                ord && start_len < n ==> !start_cur.contains(input[target].name),
                ord && start_len < n ==> forall|d: Seq<char>| #[trigger]
                    table_deps(input[target]).contains(d) ==> start_cur.contains(d),
                ord && start_len < n ==> (output.len() > start_len || i <= target),
                i <= n,
                start_out == passes(input, pass as nat),
                tables_model(output@) == scan(input, start_out, i as nat),
            decreases n - i,
        {
            let table = &tables[i];
            let ghost out = tables_model(output@);
            let ghost cur = strings_model(current@);
            proof {
                if output.len() == start_len {
                    assert(cur =~= start_cur);
                }
            }
            let deps = table.dependencies();
            proof {
                assert(input[i as int] == table@);
                assert(cur == names(out));
            }
            if !contains_string(&current, &table.name) && all_placed(&deps, &current) {
                proof {
                    let t = input[i as int];
                    assert(t == table@);
                    if idx.contains(i as int) {
                        let k = choose|k: int| 0 <= k < idx.len() && idx[k] == i as int;
                        assert(cur[k] == t.name);
                    }
                    assert forall|d: Seq<char>| #[trigger] table_deps(t).contains(d) implies names(
                        out.push(t),
                    ).take(out.len() as int).contains(d) by {
                        assert(strings_model(deps@).contains(d));
                        assert(names(out.push(t)).take(out.len() as int) =~= cur);
                    }
                }
                current.push(table.name.clone());
                output.push(table.clone());
                proof {
                    let t = input[i as int];
                    let new_out = tables_model(output@);
                    assert(new_out =~= out.push(t));
                    assert(strings_model(current@) =~= cur.push(t.name));
                    assert(names(new_out) =~= names(out).push(t.name));
                    idx = idx.push(i as int);
                    assert(strings_model(current@).take(start_len) =~= cur.take(start_len));
                    assert forall|a: int, b: int| 0 <= a < b < new_out.len() implies new_out[a].key()
                        != new_out[b].key() by {
                        if b == out.len() {
                            assert(cur[a] == out[a].name);
                        }
                    }
                    assert forall|j: int, d: Seq<char>|
                        0 <= j < new_out.len() && #[trigger] table_deps(new_out[j]).contains(
                            d,
                        ) implies names(new_out).take(j).contains(d) by {
                        if j < out.len() {
                            assert(names(new_out).take(j) =~= names(out).take(j));
                        }
                    }
                }
            }
            i += 1;
        }
        proof {
            assert(input.len() == n);
            assert(passes(input, (pass + 1) as nat) == scan(input, start_out, input.len()));
        }
        pass += 1;
    }
    proof {
        lemma_indices_bounded(idx, n as int);
    }
    if output.len() != n {
        None
    } else {
        proof {
            let out = tables_model(output@);
            assert(reorders(out, input));
            lemma_reorder_unique_names(out, input);
        }
        Some(output)
    }
}

/// Tries to sort the tables so that each comes after every table it refers
/// to. Where no such order exists, the tables come back as they were.
pub fn order(tables: Vec<Table>) -> (r: Vec<Table>)
    ensures
        orderable(tables_model(tables@)) ==> tables_model(r@) == placement(tables_model(tables@)),
        reorders(tables_model(r@), tables_model(tables@)),
        orderable(tables_model(tables@)) ==> respects_deps(tables_model(r@)),
        !orderable(tables_model(tables@)) ==> tables_model(r@) == tables_model(tables@),
{
    match resolve_order(&tables) {
        Some(sorted) => sorted,
        None => {
            proof {
                let n = tables@.len();
                let p = Seq::new(n, |k: int| k);
                assert(p.no_duplicates());
                assert(index_map(p, tables_model(tables@), tables_model(tables@)));
            }
            tables
        },
    }
}

/// In an order that the resolver gives, unless it fell back to the tables as
/// they were, a table that refers to another comes after it.
pub proof fn lemma_dependency_first(r: Seq<TableModel>, i: int, j: int)
    requires
        respects_deps(r),
        0 <= i < r.len(),
        0 <= j < r.len(),
        table_deps(r[i]).contains(r[j].name),
    ensures
        j < i,
{
    let d = r[j].name;
    assert(names(r).take(i).contains(d));
    let k = choose|k: int| 0 <= k < i && names(r).take(i)[k] == d;
    if k != j {
        if k < j {
            assert(r[k].key() != r[j].key());
        } else {
            assert(r[j].key() != r[k].key());
        }
    }
}


proof fn lemma_scan_ordered(t: Seq<TableModel>, k: nat)
    requires
        respects_deps(t),
        k <= t.len(),
    ensures
        scan(t, Seq::empty(), k) == t.take(k as int),
    decreases k,
{
    if k > 0 {
        let j = k - 1;
        lemma_scan_ordered(t, j as nat);
        let before = t.take(j);
        assert(names(before) =~= names(t).take(j));
        assert(!names(before).contains(t[j].name)) by {
            if names(before).contains(t[j].name) {
                let a = choose|a: int| 0 <= a < names(before).len() && names(before)[a] == t[j].name;
                assert(t[a].key() != t[j].key());
            }
        }
        assert(placeable(t[j], before));
        assert(before.push(t[j]) =~= t.take(k as int));
    }
}

proof fn lemma_scan_all_placed(t: Seq<TableModel>, k: nat)
    requires
        k <= t.len(),
    ensures
        scan(t, t, k) == t,
    decreases k,
{
    if k > 0 {
        lemma_scan_all_placed(t, (k - 1) as nat);
        assert(names(t)[k - 1] == t[k - 1].name);
        assert(!placeable(t[k - 1], t));
    }
}

/// Tables already in dependency order are placed as they stand: the resolver
/// gives them back unchanged, so resolving a resolved order changes nothing.
pub proof fn lemma_ordered_input_kept(t: Seq<TableModel>)
    requires
        respects_deps(t),
    ensures
        placement(t) == t,
{
    let n = t.len();
    if n > 0 {
        lemma_scan_ordered(t, n);
        assert(t.take(n as int) =~= t);
        assert(passes(t, 0) == Seq::<TableModel>::empty());
        assert(passes(t, 1) == scan(t, passes(t, 0), n));
        lemma_passes_stay(t, n);
    }
}

proof fn lemma_passes_stay(t: Seq<TableModel>, p: nat)
    requires
        p >= 1,
        passes(t, 1) == t,
    ensures
        passes(t, p) == t,
    decreases p,
{
    if p > 1 {
        lemma_passes_stay(t, (p - 1) as nat);
        lemma_scan_all_placed(t, t.len());
    }
}


/// Every position of `t` is reached by the index map of a reordering.
proof fn lemma_index_map_onto(p: Seq<int>, r: Seq<TableModel>, t: Seq<TableModel>, i: int)
    requires
        r.len() == t.len(),
        index_map(p, r, t),
        0 <= i < t.len(),
    ensures
        exists|k: int| 0 <= k < p.len() && p[k] == i,
{
    let n = t.len() as int;
    p.unique_seq_to_set();
    lemma_int_range(0, n);
    assert(p.to_set().subset_of(set_int_range(0, n)));
    lemma_len_subset(p.to_set(), set_int_range(0, n));
    lemma_subset_equality(p.to_set(), set_int_range(0, n));
    assert(set_int_range(0, n).contains(i));
    assert(p.to_set().contains(i));
}

/// A table that refers to a table missing from the set leaves no order, so
/// the resolver gives the tables back as they were.
pub proof fn lemma_missing_reference_unorderable(t: Seq<TableModel>, i: int, d: Seq<char>)
    requires
        0 <= i < t.len(),
        table_deps(t[i]).contains(d),
        !names(t).contains(d),
    ensures
        !orderable(t),
{
    if orderable(t) {
        let o = choose|o: Seq<TableModel>| reorders(o, t) && respects_deps(o);
        let p = choose|p: Seq<int>| index_map(p, o, t);
        lemma_index_map_onto(p, o, t, i);
        let k = choose|k: int| 0 <= k < p.len() && p[k] == i;
        assert(table_deps(o[k]).contains(d));
        assert(names(o).take(k).contains(d));
        let j = choose|j: int| 0 <= j < k && names(o).take(k)[j] == d;
        assert(names(t)[p[j]] == d);
    }
}

/// The position after `k` in a cycle of `len` positions.
pub open spec fn next_in_cycle(k: int, len: int) -> int {
    if k + 1 < len {
        k + 1
    } else {
        0
    }
}

/// `c` lists positions of `t` each of which refers to the next, the last
/// to the first.
pub open spec fn is_cycle(t: Seq<TableModel>, c: Seq<int>) -> bool {
    &&& c.len() > 0
    &&& forall|k: int| 0 <= k < c.len() ==> 0 <= #[trigger] c[k] < t.len()
    &&& forall|k: int|
        0 <= k < c.len() ==> table_deps(t[#[trigger] c[k]]).contains(
            t[c[next_in_cycle(k, c.len() as int)]].name,
        )
}

/// In a dependency order, a table that refers to another comes after it.
proof fn lemma_refers_later(o: Seq<TableModel>, a: int, b: int)
    requires
        respects_deps(o),
        0 <= a < o.len(),
        0 <= b < o.len(),
        table_deps(o[a]).contains(o[b].name),
    ensures
        b < a,
{
    assert(names(o).take(a).contains(o[b].name));
    let j = choose|j: int| 0 <= j < a && names(o).take(a)[j] == o[b].name;
    if j != b {
        if j < b {
            assert(o[j].key() != o[b].key());
        } else {
            assert(o[b].key() != o[j].key());
        }
    }
}

/// A cycle of references, a table that refers to itself included, leaves no
/// order, so the resolver gives the tables back as they were.
pub proof fn lemma_cycle_unorderable(t: Seq<TableModel>, c: Seq<int>)
    requires
        is_cycle(t, c),
    ensures
        !orderable(t),
{
    if orderable(t) {
        let o = choose|o: Seq<TableModel>| reorders(o, t) && respects_deps(o);
        let p = choose|p: Seq<int>| index_map(p, o, t);
        let q = positions_in(p, c);
        lemma_positions_in(p, o, t, c);
        assert forall|k: int| 0 <= k < c.len() implies #[trigger] q[next_in_cycle(
            k,
            c.len() as int,
        )] < q[k] by {
            let k1 = next_in_cycle(k, c.len() as int);
            assert(table_deps(t[c[k]]).contains(t[c[k1]].name));
            lemma_refers_later(o, q[k], q[k1]);
        }
        lemma_cycle_descends(q, c.len() - 1);
        assert(q[next_in_cycle(c.len() - 1, c.len() as int)] < q[c.len() - 1]);
    }
}

/// For each position of `c`, a position of `p` that sends it there.
spec fn positions_in(p: Seq<int>, c: Seq<int>) -> Seq<int> {
    Seq::new(c.len(), |k: int| choose|m: int| 0 <= m < p.len() && p[m] == c[k])
}

proof fn lemma_positions_in(p: Seq<int>, o: Seq<TableModel>, t: Seq<TableModel>, c: Seq<int>)
    requires
        o.len() == t.len(),
        index_map(p, o, t),
        forall|k: int| 0 <= k < c.len() ==> 0 <= #[trigger] c[k] < t.len(),
    ensures
        positions_in(p, c).len() == c.len(),
        forall|k: int|
            0 <= k < c.len() ==> 0 <= #[trigger] positions_in(p, c)[k] < o.len() && o[positions_in(
                p,
                c,
            )[k]] == t[c[k]],
{
    assert forall|k: int| 0 <= k < c.len() implies 0 <= #[trigger] positions_in(p, c)[k] < o.len()
        && o[positions_in(p, c)[k]] == t[c[k]] by {
        lemma_index_map_onto(p, o, t, c[k]);
    }
}

proof fn lemma_cycle_descends(q: Seq<int>, k: int)
    requires
        0 <= k < q.len(),
        forall|j: int| 0 <= j < q.len() ==> #[trigger] q[next_in_cycle(j, q.len() as int)] < q[j],
    ensures
        q[k] <= q[0],
    decreases k,
{
    if k > 0 {
        lemma_cycle_descends(q, k - 1);
        assert(q[next_in_cycle(k - 1, q.len() as int)] < q[k - 1]);
    }
}


/// Every table that a table refers to is in the set.
pub open spec fn refs_closed(t: Seq<TableModel>) -> bool {
    forall|i: int, d: Seq<char>|
        0 <= i < t.len() && #[trigger] table_deps(t[i]).contains(d) ==> names(t).contains(d)
}

/// No cycle of references.
pub open spec fn acyclic(t: Seq<TableModel>) -> bool {
    forall|c: Seq<int>| !#[trigger] is_cycle(t, c)
}

/// Position `i` of `t` holds a table whose name is not placed.
spec fn unplaced(t: Seq<TableModel>, placed: Seq<Seq<char>>, i: int) -> bool {
    0 <= i < t.len() && !placed.contains(t[i].name)
}

/// An unplaced table that the table at `i` refers to.
spec fn next_unplaced(t: Seq<TableModel>, placed: Seq<Seq<char>>, i: int) -> int {
    choose|j: int| unplaced(t, placed, j) && table_deps(t[i]).contains(t[j].name)
}

/// The walk from `i` along references to unplaced tables, `k` steps long.
spec fn walk(t: Seq<TableModel>, placed: Seq<Seq<char>>, i: int, k: nat) -> int
    decreases k,
{
    if k == 0 {
        i
    } else {
        next_unplaced(t, placed, walk(t, placed, i, (k - 1) as nat))
    }
}

proof fn lemma_walk(t: Seq<TableModel>, placed: Seq<Seq<char>>, i: int, k: nat)
    requires
        unplaced(t, placed, i),
        forall|x: int| #[trigger]
            unplaced(t, placed, x) ==> exists|j: int|
                unplaced(t, placed, j) && table_deps(t[x]).contains(#[trigger] t[j].name),
    ensures
        unplaced(t, placed, walk(t, placed, i, k)),
        table_deps(t[walk(t, placed, i, k)]).contains(t[walk(t, placed, i, k + 1)].name),
    decreases k,
{
    if k > 0 {
        lemma_walk(t, placed, i, (k - 1) as nat);
    }
    let x = walk(t, placed, i, k);
    assert(unplaced(t, placed, x));
    assert(walk(t, placed, i, k + 1) == next_unplaced(t, placed, x));
}

/// A walk along references that never reaches a placed table, as long as
/// the set has tables and one more.
proof fn lemma_walk_meets_itself(t: Seq<TableModel>, placed: Seq<Seq<char>>, i0: int)
    requires
        unplaced(t, placed, i0),
        forall|x: int| #[trigger]
            unplaced(t, placed, x) ==> exists|j: int|
                unplaced(t, placed, j) && table_deps(t[x]).contains(#[trigger] t[j].name),
    ensures
        !acyclic(t),
{
    let n = t.len() as int;
    let w = Seq::new((n + 1) as nat, |k: int| walk(t, placed, i0, k as nat));
    assert forall|k: int| 0 <= k < w.len() implies 0 <= #[trigger] w[k] < n by {
        lemma_walk(t, placed, i0, k as nat);
    }
    assert forall|k: int| 0 <= k < w.len() - 1 implies table_deps(t[#[trigger] w[k]]).contains(
        t[w[k + 1]].name,
    ) by {
        lemma_walk(t, placed, i0, k as nat);
    }
    lemma_walk_has_cycle(t, w);
}

/// A walk along references longer than the set of tables passes a table
/// twice, and between the two lies a cycle.
proof fn lemma_walk_has_cycle(t: Seq<TableModel>, w: Seq<int>)
    requires
        w.len() == t.len() + 1,
        forall|k: int| 0 <= k < w.len() ==> 0 <= #[trigger] w[k] < t.len(),
        forall|k: int|
            0 <= k < w.len() - 1 ==> table_deps(t[#[trigger] w[k]]).contains(t[w[k + 1]].name),
    ensures
        !acyclic(t),
{
    if w.no_duplicates() {
        lemma_indices_bounded(w, t.len() as int);
    }
    let (a, b) = choose|a: int, b: int| 0 <= a < w.len() && 0 <= b < w.len() && a != b && w[a] == w[b];
    let (a, b) = if a < b { (a, b) } else { (b, a) };
    let c = w.subrange(a, b);
    assert forall|k: int| 0 <= k < c.len() implies 0 <= #[trigger] c[k] < t.len() by {
        assert(c[k] == w[a + k]);
    }
    assert forall|k: int| 0 <= k < c.len() implies table_deps(t[#[trigger] c[k]]).contains(
        t[c[next_in_cycle(k, c.len() as int)]].name,
    ) by {
        assert(c[k] == w[a + k]);
        assert(table_deps(t[w[a + k]]).contains(t[w[a + k + 1]].name));
        if k + 1 < c.len() {
            assert(c[k + 1] == w[a + k + 1]);
        } else {
            assert(w[a + k + 1] == w[b]);
        }
    }
    assert(is_cycle(t, c));
}

/// Among tables that refer only to tables of the set, without a cycle, one
/// that is not placed has all it refers to placed.
proof fn lemma_some_placeable(t: Seq<TableModel>, placed: Seq<Seq<char>>, i0: int) -> (i: int)
    requires
        refs_closed(t),
        acyclic(t),
        unplaced(t, placed, i0),
    ensures
        unplaced(t, placed, i),
        forall|d: Seq<char>| #[trigger] table_deps(t[i]).contains(d) ==> placed.contains(d),
{
    if exists|i: int|
        unplaced(t, placed, i) && forall|d: Seq<char>| #[trigger]
            table_deps(t[i]).contains(d) ==> placed.contains(d) {
        choose|i: int|
            unplaced(t, placed, i) && forall|d: Seq<char>| #[trigger]
                table_deps(t[i]).contains(d) ==> placed.contains(d)
    } else {
        assert forall|x: int| #[trigger] unplaced(t, placed, x) implies exists|j: int|
            unplaced(t, placed, j) && table_deps(t[x]).contains(#[trigger] t[j].name) by {
            let d = choose|d: Seq<char>| #[trigger] table_deps(t[x]).contains(d) && !placed.contains(d);
            assert(names(t).contains(d));
            let j = choose|j: int| 0 <= j < names(t).len() && names(t)[j] == d;
            assert(unplaced(t, placed, j) && table_deps(t[x]).contains(t[j].name));
        }
        lemma_walk_meets_itself(t, placed, i0);
        i0
    }
}

/// Builds a dependency order of `m` tables of `t`.
proof fn lemma_build_order(t: Seq<TableModel>, m: nat) -> (r: (Seq<TableModel>, Seq<int>))
    requires
        names_unique(t),
        refs_closed(t),
        acyclic(t),
        m <= t.len(),
    ensures
        r.0.len() == m,
        index_map(r.1, r.0, t),
        respects_deps(r.0),
    decreases m,
{
    if m == 0 {
        (Seq::empty(), Seq::empty())
    } else {
        let (o, p) = lemma_build_order(t, (m - 1) as nat);
        let placed = names(o);
        let i0 = lemma_first_unplaced(t, placed);
        let i = lemma_some_placeable(t, placed, i0);
        let o2 = o.push(t[i]);
        let p2 = p.push(i);
        if p.contains(i) {
            let k = choose|k: int| 0 <= k < p.len() && p[k] == i;
            assert(placed[k] == t[i].name);
        }
        assert(index_map(p2, o2, t));
        assert(names(o2) =~= placed.push(t[i].name));
        assert forall|a: int, b: int| 0 <= a < b < o2.len() implies o2[a].key() != o2[b].key() by {
            if b == o.len() {
                assert(placed[a] == o[a].name);
            }
        }
        assert forall|j: int, d: Seq<char>|
            0 <= j < o2.len() && #[trigger] table_deps(o2[j]).contains(d) implies names(o2).take(
                j,
            ).contains(d) by {
            if j < o.len() {
                assert(names(o2).take(j) =~= names(o).take(j));
            } else {
                assert(names(o2).take(j) =~= placed);
            }
        }
        (o2, p2)
    }
}

/// Tables with distinct names that refer only to tables of the set, without a
/// cycle, can be put in dependency order; the resolver then places them all,
/// each after every table it refers to.
pub proof fn lemma_acyclic_orderable(t: Seq<TableModel>)
    requires
        names_unique(t),
        refs_closed(t),
        acyclic(t),
    ensures
        orderable(t),
{
    let (o, p) = lemma_build_order(t, t.len());
    assert(index_map(p, o, t));
    assert(reorders(o, t));
}


/// Tables can be put in dependency order exactly when their names are
/// distinct, they refer only to tables of the set, and no references form a
/// cycle. So the resolver falls back to the tables as they were exactly on a
/// repeated name, a missing table or a cycle.
pub proof fn lemma_orderable_iff(t: Seq<TableModel>)
    ensures
        orderable(t) <==> (names_unique(t) && refs_closed(t) && acyclic(t)),
{
    if names_unique(t) && refs_closed(t) && acyclic(t) {
        lemma_acyclic_orderable(t);
    }
    if orderable(t) {
        assert forall|i: int, d: Seq<char>|
            0 <= i < t.len() && #[trigger] table_deps(t[i]).contains(d) implies names(t).contains(
            d,
        ) by {
            if !names(t).contains(d) {
                lemma_missing_reference_unorderable(t, i, d);
            }
        }
        assert forall|c: Seq<int>| !#[trigger] is_cycle(t, c) by {
            if is_cycle(t, c) {
                lemma_cycle_unorderable(t, c);
            }
        }
    }
}

} // verus!
