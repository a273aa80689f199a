use std::str::FromStr;

use ergol::parse::extract_chevrons;
use ergol::schema::Ty;

#[test]
fn named_types() {
    assert_eq!(Ty::parse("String"), Ok(Ty::String));
    assert_eq!(Ty::parse("i32"), Ok(Ty::I32));
    assert_eq!(Ty::parse("i64"), Ok(Ty::I64));
    assert_eq!(Ty::parse("bool"), Ok(Ty::Bool));
    assert_eq!(Ty::parse("BitVec"), Ok(Ty::BitVec));
    assert_eq!(Ty::parse("NaiveDateTime"), Ok(Ty::NaiveDateTime));
    assert_eq!(Ty::parse("NaiveDate"), Ok(Ty::NaiveDate));
    assert_eq!(Ty::parse("NaiveTime"), Ok(Ty::NaiveTime));
    assert_eq!(Ty::parse("MacAddress"), Ok(Ty::MacAddress));
    assert_eq!(Ty::parse("Uuid"), Ok(Ty::Uuid));
    assert_eq!(Ty::parse("PrimitiveDateTime"), Ok(Ty::PrimitiveDateTime));
    assert_eq!(Ty::parse("OffsetDateTime"), Ok(Ty::OffsetDateTime));
    assert_eq!(Ty::parse("Date"), Ok(Ty::Date));
    assert_eq!(Ty::parse("Time"), Ok(Ty::Time));
}

#[test]
fn optional_types() {
    assert_eq!(Ty::parse("Option < i32 >"), Ok(Ty::Option(Box::new(Ty::I32))));
    assert_eq!(Ty::parse("Option <String>"), Ok(Ty::Option(Box::new(Ty::String))));
    assert_eq!(
        Ty::parse("Option < UserRole >"),
        Ok(Ty::Option(Box::new(Ty::Enum("user_role".to_string()))))
    );
    assert_eq!(
        Ty::parse("Option < DateTime >"),
        Ok(Ty::Option(Box::new(Ty::Enum("date_time".to_string()))))
    );
    assert_eq!(Ty::parse("Option < DateTime < Tz > >"), Ok(Ty::Option(Box::new(Ty::Enum("date_time".to_string())))));
}

#[test]
fn generic_types() {
    assert_eq!(Ty::parse("Json < Data >"), Ok(Ty::Json));
    assert_eq!(Ty::parse("Point < f64 >"), Ok(Ty::Point));
    assert_eq!(Ty::parse("Rect < f64 >"), Ok(Ty::Rect));
    assert_eq!(Ty::parse("LineString < f64 >"), Ok(Ty::LineString));
    assert_eq!(Ty::parse("Point < i32 >"), Ok(Ty::Enum("point < i32 >".to_string())));
}

#[test]
fn date_times() {
    assert_eq!(Ty::parse("DateTime < Utc >"), Ok(Ty::DateTimeUtc));
    assert_eq!(Ty::parse("DateTime < chrono :: Utc >"), Ok(Ty::DateTimeUtc));
    assert_eq!(Ty::parse("DateTime < Local >"), Ok(Ty::DateTimeLocal));
    assert_eq!(Ty::parse("DateTime < chrono :: Local >"), Ok(Ty::DateTimeLocal));
    assert_eq!(Ty::parse("DateTime < FixedOffset >"), Ok(Ty::DateTimeFixedOffset));
    assert_eq!(Ty::parse("DateTime < chrono :: FixedOffset >"), Ok(Ty::DateTimeFixedOffset));
    assert_eq!(Ty::parse("DateTime < Tz >"), Err(()));
}

#[test]
fn other_names_are_enums() {
    assert_eq!(Ty::parse("UserRole"), Ok(Ty::Enum("user_role".to_string())));
    assert_eq!(Ty::parse("Gender"), Ok(Ty::Enum("gender".to_string())));
    assert_eq!(Ty::from_str("IsOk"), Ok(Ty::Enum("is_ok".to_string())));
}

#[test]
fn chevrons_are_extracted() {
    assert_eq!(extract_chevrons("Option < i32 >"), Some("i32"));
    assert_eq!(extract_chevrons("Vec<Option<i32>>"), Some("Option"));
    assert_eq!(extract_chevrons("Point <f64"), Some("f64"));
    assert_eq!(extract_chevrons("<>"), Some(""));
    assert_eq!(extract_chevrons("String"), None);
}
