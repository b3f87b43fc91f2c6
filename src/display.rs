use std::cmp::Ordering;
use vstd::prelude::*;

verus! {

/// The one-character text of an ordering: `<`, `=` or `>`.
pub open spec fn order_text(order: Ordering) -> Seq<char> {
    match order {
        Ordering::Less => "<"@,
        Ordering::Equal => "="@,
        Ordering::Greater => ">"@,
    }
}

/// The one-character text of an ordering: `<`, `=` or `>`.
pub fn display(order: Ordering) -> (r: String)
    ensures
        r@ == order_text(order),
{
    match order {
        Ordering::Less => "<".to_owned(),
        Ordering::Equal => "=".to_owned(),
        Ordering::Greater => ">".to_owned(),
    }
}

} // verus!
