use ergol::pool::Manager;
use ergol::query::{Operator, Order, OrderBy};

#[test]
fn order_to_str() {
    assert_eq!(Order::Ascend.to_str(), "ASC");
    assert_eq!(Order::Descend.to_str(), "DESC");
    let by = OrderBy { column: "age", order: Order::Descend };
    assert_eq!(by.order.to_str(), "DESC");
    assert_eq!(by.column, "age");
}

#[test]
fn operator_to_str() {
    assert_eq!(Operator::Eq.to_str(), "=");
    assert_eq!(Operator::Geq.to_str(), ">=");
    assert_eq!(Operator::Leq.to_str(), "<=");
    assert_eq!(Operator::Gt.to_str(), ">");
    assert_eq!(Operator::Lt.to_str(), "<");
    assert_eq!(Operator::Neq.to_str(), "!=");
    assert_eq!(Operator::Like.to_str(), "LIKE");
    assert_eq!(Operator::SimilarTo.to_str(), "SIMILAR TO");
}

#[test]
fn manager_keeps_url() {
    let m = Manager::new("postgres://ergol@localhost/ergol");
    assert_eq!(m.url(), "postgres://ergol@localhost/ergol");
}
