//! Column types read from the text of a source type, as a code generator
//! writes it (`Option < i32 >`, `DateTime < Utc >`, `UserRole`).
use vstd::prelude::*;
use vstd::string::StrSliceExecFns;

use crate::naming::{snake_case, to_snake};
use crate::schema::{Ty, TyModel};

verus! {

/// What `str::trim` returns: the text without its leading and trailing
/// whitespace.
pub uninterp spec fn trimmed(s: Seq<char>) -> Seq<char>;

/// Relies on str::trim: it removes leading and trailing whitespace, so the
/// result is no longer than the text.
#[verifier::external_body]
fn trim(s: &str) -> (r: &str)
    ensures
        r@ == trimmed(s@),
        r@.len() <= s@.len(),
{
    s.trim()
}

/// The position of the first `c` in `s`, or the length of `s` when it holds
/// none.
pub open spec fn char_index(s: Seq<char>, c: char) -> int
    decreases s.len(),
{
    if s.len() == 0 {
        0
    } else if s[0] == c {
        0
    } else {
        1 + char_index(s.drop_first(), c)
    }
}

proof fn lemma_char_index(s: Seq<char>, c: char, i: int)
    requires
        0 <= i <= s.len(),
        forall|k: int| 0 <= k < i ==> s[k] != c,
        i < s.len() ==> s[i] == c,
    ensures
        char_index(s, c) == i,
    decreases i,
{
    if i > 0 {
        lemma_char_index(s.drop_first(), c, i - 1);
    }
}

/// The text between the first `<` and the next `<` or `>`, trimmed; `None`
/// when there is no `<`.
pub open spec fn chevrons(s: Seq<char>) -> Option<Seq<char>> {
    let i = char_index(s, '<');
    if i >= s.len() {
        None
    } else {
        let rest = s.subrange(i + 1, s.len() as int);
        let seg = rest.take(char_index(rest, '<'));
        Some(trimmed(seg.take(char_index(seg, '>'))))
    }
}

/// The column type that a source type's text stands for: the types the
/// database knows by name, an optional, JSON, geometric types over `f64`, date
/// times with a time zone; any other name is an enum type, in snake case.
pub open spec fn parse_ty(s: Seq<char>) -> Option<TyModel>
    decreases s.len(),
{
    if s == "String"@ {
        Some(TyModel::String)
    } else if s == "i32"@ {
        Some(TyModel::I32)
    } else if s == "i64"@ {
        Some(TyModel::I64)
    } else if s == "bool"@ {
        Some(TyModel::Bool)
    } else if s == "BitVec"@ {
        Some(TyModel::BitVec)
    } else if s == "NaiveDateTime"@ {
        Some(TyModel::NaiveDateTime)
    } else if s == "NaiveDate"@ {
        Some(TyModel::NaiveDate)
    } else if s == "NaiveTime"@ {
        Some(TyModel::NaiveTime)
    } else if s == "MacAddress"@ {
        Some(TyModel::MacAddress)
    } else if s == "Uuid"@ {
        Some(TyModel::Uuid)
    } else if s == "PrimitiveDateTime"@ {
        Some(TyModel::PrimitiveDateTime)
    } else if s == "OffsetDateTime"@ {
        Some(TyModel::OffsetDateTime)
    } else if s == "Date"@ {
        Some(TyModel::Date)
    } else if s == "Time"@ {
        Some(TyModel::Time)
    } else if "Option <"@.is_prefix_of(s) {
        match chevrons(s) {
            // The inner text comes after the first `<` of `s` and trimming
            // never lengthens it: the guard always holds, it only bounds the
            // recursion.
            Some(inner) => if inner.len() < s.len() {
                match parse_ty(inner) {
                    Some(t) => Some(TyModel::Option(Box::new(t))),
                    None => None,
                }
            } else {
                None
            },
            None => None,
        }
    } else if "Json <"@.is_prefix_of(s) {
        Some(TyModel::Json)
    } else if "Point <"@.is_prefix_of(s) && chevrons(s) == Some("f64"@) {
        Some(TyModel::Point)
    } else if "Rect <"@.is_prefix_of(s) && chevrons(s) == Some("f64"@) {
        Some(TyModel::Rect)
    } else if "LineString <"@.is_prefix_of(s) && chevrons(s) == Some("f64"@) {
        Some(TyModel::LineString)
    } else if "DateTime <"@.is_prefix_of(s) {
        match chevrons(s) {
            Some(z) => if z == "Utc"@ || z == "chrono :: Utc"@ {
                Some(TyModel::DateTimeUtc)
            } else if z == "Local"@ || z == "chrono :: Local"@ {
                Some(TyModel::DateTimeLocal)
            } else if z == "FixedOffset"@ || z == "chrono :: FixedOffset"@ {
                Some(TyModel::DateTimeFixedOffset)
            } else {
                None
            },
            None => None,
        }
    } else {
        Some(TyModel::Enum(snake_case(s)))
    }
}

/// Whether two texts are equal.
fn same_text(a: &str, b: &str) -> (r: bool)
    ensures
        r == (a@ == b@),
{
    let n = a.unicode_len();
    if n != b.unicode_len() {
        return false;
    }
    let mut i: usize = 0;
    while i < n
        invariant
            i <= n,
            n == a@.len(),
            n == b@.len(),
            forall|k: int| 0 <= k < i ==> a@[k] == b@[k],
        decreases n - i,
    {
        if a.get_char(i) != b.get_char(i) {
            return false;
        }
        i += 1;
    }
    assert(a@ =~= b@);
    true
}

/// Whether `p` is a prefix of `s`.
fn has_prefix(s: &str, p: &str) -> (r: bool)
    ensures
        r == p@.is_prefix_of(s@),
{
    let n = p.unicode_len();
    if n > s.unicode_len() {
        return false;
    }
    let mut i: usize = 0;
    while i < n
        invariant
            i <= n,
            n == p@.len(),
            n <= s@.len(),
            forall|k: int| 0 <= k < i ==> p@[k] == s@[k],
        decreases n - i,
    {
        if p.get_char(i) != s.get_char(i) {
            return false;
        }
        i += 1;
    }
    assert(p@ =~= s@.subrange(0, n as int));
    true
}

/// The position of the first `c` in `s`, or its length.
fn find_char(s: &str, c: char) -> (r: usize)
    ensures
        r == char_index(s@, c),
        r <= s@.len(),
{
    let n = s.unicode_len();
    let mut i: usize = 0;
    while i < n
        invariant
            i <= n,
            n == s@.len(),
            forall|k: int| 0 <= k < i ==> s@[k] != c,
        decreases n - i,
    {
        if s.get_char(i) == c {
            proof {
                lemma_char_index(s@, c, i as int);
            }
            return i;
        }
        i += 1;
    }
    proof {
        lemma_char_index(s@, c, i as int);
    }
    i
}

/// The text between the first `<` and the next `<` or `>`, trimmed.
pub fn extract_chevrons(pattern: &str) -> (r: Option<&str>)
    ensures
        r matches Some(x) ==> chevrons(pattern@) == Some(x@) && x@.len() < pattern@.len(),
        r is None ==> chevrons(pattern@) is None,
{
    let n = pattern.unicode_len();
    let i = find_char(pattern, '<');
    if i >= n {
        return None;
    }
    let rest = pattern.substring_char(i + 1, n);
    let j = find_char(rest, '<');
    let seg = rest.substring_char(0, j);
    let k = find_char(seg, '>');
    let seg = seg.substring_char(0, k);
    assert(rest@.take(j as int) == rest@.subrange(0, j as int));
    let inner = trim(seg);
    Some(inner)
}

impl Ty {
    /// Reads the column type from the text of a source type; `Err` for a date
    /// time whose time zone is none of `Utc`, `Local` and `FixedOffset`.
    pub fn parse(s: &str) -> (r: Result<Ty, ()>)
        ensures
            r is Ok <==> parse_ty(s@) is Some,
            r matches Ok(t) ==> parse_ty(s@) == Some(t@),
        decreases s@.len(),
    {
        if same_text(s, "String") {
            return Ok(Ty::String);
        }
        if same_text(s, "i32") {
            return Ok(Ty::I32);
        }
        if same_text(s, "i64") {
            return Ok(Ty::I64);
        }
        if same_text(s, "bool") {
            return Ok(Ty::Bool);
        }
        if same_text(s, "BitVec") {
            return Ok(Ty::BitVec);
        }
        if same_text(s, "NaiveDateTime") {
            return Ok(Ty::NaiveDateTime);
        }
        if same_text(s, "NaiveDate") {
            return Ok(Ty::NaiveDate);
        }
        if same_text(s, "NaiveTime") {
            return Ok(Ty::NaiveTime);
        }
        if same_text(s, "MacAddress") {
            return Ok(Ty::MacAddress);
        }
        if same_text(s, "Uuid") {
            return Ok(Ty::Uuid);
        }
        if same_text(s, "PrimitiveDateTime") {
            return Ok(Ty::PrimitiveDateTime);
        }
        if same_text(s, "OffsetDateTime") {
            return Ok(Ty::OffsetDateTime);
        }
        if same_text(s, "Date") {
            return Ok(Ty::Date);
        }
        if same_text(s, "Time") {
            return Ok(Ty::Time);
        }
        if has_prefix(s, "Option <") {
            match extract_chevrons(s) {
                Some(inner) => match Ty::parse(inner) {
                    Ok(t) => Ok(Ty::Option(Box::new(t))),
                    Err(()) => Err(()),
                },
                None => Err(()),
            }
        } else if has_prefix(s, "Json <") {
            Ok(Ty::Json)
        } else if has_prefix(s, "Point <") && is_f64(extract_chevrons(s)) {
            Ok(Ty::Point)
        } else if has_prefix(s, "Rect <") && is_f64(extract_chevrons(s)) {
            Ok(Ty::Rect)
        } else if has_prefix(s, "LineString <") && is_f64(extract_chevrons(s)) {
            Ok(Ty::LineString)
        } else if has_prefix(s, "DateTime <") {
            match extract_chevrons(s) {
                Some(z) => if same_text(z, "Utc") || same_text(z, "chrono :: Utc") {
                    Ok(Ty::DateTimeUtc)
                } else if same_text(z, "Local") || same_text(z, "chrono :: Local") {
                    Ok(Ty::DateTimeLocal)
                } else if same_text(z, "FixedOffset") || same_text(z, "chrono :: FixedOffset") {
                    Ok(Ty::DateTimeFixedOffset)
                } else {
                    Err(())
                },
                None => Err(()),
            }
        } else {
            Ok(Ty::Enum(to_snake(s)))
        }
    }
}

fn is_f64(x: Option<&str>) -> (r: bool)
    ensures
        r == (x matches Some(y) && y@ == "f64"@),
{
    match x {
        Some(y) => same_text(y, "f64"),
        None => false,
    }
}

impl std::str::FromStr for Ty {
    type Err = ();

    fn from_str(s: &str) -> Result<Ty, ()> {
        Ty::parse(s)
    }
}

} // verus!
