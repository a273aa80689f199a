//! A snapshot merged from the elements of its fragments.
use vstd::prelude::*;

use crate::diff::{enums_model, state_model, tables_model, State};
use crate::order::{order, orderable, placement, reorders, respects_deps};
use crate::schema::{Element, ElementModel, EnumModel, TableModel};

verus! {

/// The enums among the elements, in order.
pub open spec fn enums_of(es: Seq<ElementModel>) -> Seq<EnumModel> {
    es.filter_map(|e: ElementModel| if let ElementModel::Enum(x) = e { Some(x) } else { None })
}

/// The tables among the elements, in order.
pub open spec fn tables_of(es: Seq<ElementModel>) -> Seq<TableModel> {
    es.filter_map(|e: ElementModel| if let ElementModel::Table(t) = e { Some(t) } else { None })
}

/// The models of the elements, in order.
pub open spec fn elements_model(es: Seq<Element>) -> Seq<ElementModel> {
    es.map_values(|e: Element| e@)
}

/// Merges the elements of a snapshot's fragments: its enums in the order of
/// the elements, and its tables sorted by their dependencies.
pub fn merge(elements: &Vec<Element>) -> (r: State)
    ensures
        state_model(r).enums == enums_of(elements_model(elements@)),
        orderable(tables_of(elements_model(elements@))) ==> state_model(r).tables == placement(
            tables_of(elements_model(elements@)),
        ),
        reorders(state_model(r).tables, tables_of(elements_model(elements@))),
        orderable(tables_of(elements_model(elements@))) ==> respects_deps(state_model(r).tables),
        !orderable(tables_of(elements_model(elements@))) ==> state_model(r).tables == tables_of(
            elements_model(elements@),
        ),
{
    let ghost all = elements_model(elements@);
    let mut enums = Vec::new();
    let mut tables = Vec::new();
    let mut i: usize = 0;
    while i < elements.len()
        invariant
            i <= elements.len(),
            all == elements_model(elements@),
            enums_model(enums@) == enums_of(all.take(i as int)),
            tables_model(tables@) == tables_of(all.take(i as int)),
        decreases elements.len() - i,
    {
        proof {
            assert(all.take(i as int + 1).drop_last() =~= all.take(i as int));
        }
        match &elements[i] {
            Element::Enum(x) => {
                let x = x.clone();
                proof {
                    assert(enums_model(enums@.push(x)) =~= enums_model(enums@).push(x@));
                }
                enums.push(x);
            },
            Element::Table(t) => {
                let t = t.clone();
                proof {
                    assert(tables_model(tables@.push(t)) =~= tables_model(tables@).push(t@));
                }
                tables.push(t);
            },
        }
        i += 1;
    }
    assert(all.take(i as int) =~= all);
    (enums, order(tables))
}

} // verus!
