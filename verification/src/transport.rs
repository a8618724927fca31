//! Transport cost estimation: a fixed zone-distance table between city names
//! and a pure cost formula over it.
//!
//! The table lists the routes between Caerleon and each royal city at 8
//! zones; every pair not listed defaults to 12 zones (a cross-region trade).
//! The cost is `distance * 100 * max(quantity / 100, 1)` silver, which over
//! the integers is exactly `distance * max(quantity, 100)`.

use vstd::prelude::*;
use vstd::string::StringExecFns;

use crate::model::str_views;

verus! {

/// The royal cities with a listed route to Caerleon, as the table names them.
pub open spec fn royal_names() -> Seq<Seq<char>> {
    seq!["Bridgewatch"@, "Lymhurst"@, "Martlock"@, "Fort Sterling"@, "Thetford"@]
}

/// Whether `c` is one of the royal cities in the route table.
pub open spec fn is_royal(c: Seq<char>) -> bool {
    royal_names().contains(c)
}

/// Zone distance between two cities: 8 for a listed Caerleon/royal-city
/// route (in either direction), 12 for every other pair.
pub open spec fn zone_distance(a: Seq<char>, b: Seq<char>) -> int {
    if (a == "Caerleon"@ && is_royal(b)) || (b == "Caerleon"@ && is_royal(a)) {
        8
    } else {
        12
    }
}

/// Estimated shipping cost for moving `quantity` units from `a` to `b`:
/// 100 silver per zone, scaled with volume above a 100-unit baseline but
/// never below the single-batch flat cost.
pub open spec fn transport_cost(a: Seq<char>, b: Seq<char>, quantity: int) -> int {
    zone_distance(a, b) * vstd::math::max(quantity, 100)
}

/// String equality by contents.
fn str_eq(a: &str, b: &str) -> (r: bool)
    ensures
        r == (a@ == b@),
{
    String::from_str(a) == String::from_str(b)
}

/// The route table's royal-city names, as owned strings.
pub fn royal_route_names() -> (v: Vec<String>)
    ensures
        str_views(v@) == royal_names(),
{
    let mut v: Vec<String> = Vec::new();
    v.push(String::from_str("Bridgewatch"));
    v.push(String::from_str("Lymhurst"));
    v.push(String::from_str("Martlock"));
    v.push(String::from_str("Fort Sterling"));
    v.push(String::from_str("Thetford"));
    proof {
        assert(str_views(v@) =~= royal_names());
    }
    v
}

/// Membership of `c` in the route table's royal-city column.
fn is_royal_city(c: &str) -> (r: bool)
    ensures
        r == is_royal(c@),
{
    let names = royal_route_names();
    let mut j: usize = 0;
    while j < names.len()
        invariant
            j <= names.len(),
            str_views(names@) == royal_names(),
            forall|k: int| 0 <= k < j ==> royal_names()[k] != c@,
        decreases names.len() - j,
    {
        if str_eq(names[j].as_str(), c) {
            assert(royal_names()[j as int] == c@);
            return true;
        }
        j += 1;
    }
    assert(forall|k: int| 0 <= k < royal_names().len() ==> royal_names()[k] != c@);
    false
}

/// Zone distance between two city names, looked up in the route table.
pub fn city_distance(a: &str, b: &str) -> (d: u64)
    ensures
        d == zone_distance(a@, b@),
{
    let a_caer = str_eq(a, "Caerleon");
    let b_caer = str_eq(b, "Caerleon");
    if (a_caer && is_royal_city(b)) || (b_caer && is_royal_city(a)) {
        8
    } else {
        12
    }
}

} // verus!
