//! Rewriting of the header template for one output calendar.

use vstd::prelude::*;
use crate::str_eq;
use crate::types::Property;
use crate::types::props_model;

verus! {

/// The fixed product identifier written into every output calendar.
pub open spec fn prodid_value_spec() -> Seq<char> {
    "-//github.com/fluxdiv/canvas_calendar_split//EN"@
}

/// The fixed prefix of every output calendar's description.
pub open spec fn desc_prefix_spec() -> Seq<char> {
    "Calendar events for "@
}

/// How one template property is rewritten for the class `class`: the product
/// identifier gets the fixed tool value, the calendar display name becomes
/// `class` verbatim, the calendar description becomes the fixed message for
/// `class`, and every other property is kept unchanged.
pub open spec fn rewrite_prop_spec(class: Seq<char>, p: (Seq<char>, Seq<char>)) -> (
    Seq<char>,
    Seq<char>,
) {
    if p.0 == "PRODID"@ {
        (p.0, prodid_value_spec())
    } else if p.0 == "X-WR-CALNAME"@ {
        (p.0, class)
    } else if p.0 == "X-WR-CALDESC"@ {
        (p.0, desc_prefix_spec() + class)
    } else {
        p
    }
}

/// The whole header rewritten for `class`: exactly one output property per
/// template property, in template order.
pub open spec fn rewrite_header_spec(class: Seq<char>, ps: Seq<(Seq<char>, Seq<char>)>) -> Seq<
    (Seq<char>, Seq<char>),
> {
    ps.map_values(|p: (Seq<char>, Seq<char>)| rewrite_prop_spec(class, p))
}

/// Rewriting never touches a property's key.
pub proof fn lemma_rewrite_keeps_keys(class: Seq<char>, p: (Seq<char>, Seq<char>))
    ensures
        rewrite_prop_spec(class, p).0 == p.0,
{
}

/// A property whose key is none of the three recognized ones comes through
/// unchanged, value included.
pub proof fn lemma_rewrite_keeps_unrecognized(class: Seq<char>, p: (Seq<char>, Seq<char>))
    requires
        p.0 != "PRODID"@,
        p.0 != "X-WR-CALNAME"@,
        p.0 != "X-WR-CALDESC"@,
    ensures
        rewrite_prop_spec(class, p) == p,
{
}

/// Rewriting a header that was already rewritten for the same class changes
/// nothing.
pub proof fn lemma_rewrite_idempotent(class: Seq<char>, ps: Seq<(Seq<char>, Seq<char>)>)
    ensures
        rewrite_header_spec(class, rewrite_header_spec(class, ps)) == rewrite_header_spec(
            class,
            ps,
        ),
{
    let once = rewrite_header_spec(class, ps);
    assert forall|i: int| 0 <= i < once.len() implies rewrite_prop_spec(class, once[i])
        == once[i] by {
        assert(once[i] == rewrite_prop_spec(class, ps[i]));
    }
    assert(rewrite_header_spec(class, once) =~= once);
}

/// Produces the header for the output calendar of class `class` from the
/// template `header`: same number of properties in the same order, with only
/// the three recognized values replaced.
pub fn get_new_header(class: String, header: Vec<Property>) -> (r: Vec<Property>)
    ensures
        r@.len() == header@.len(),
        forall|i: int| 0 <= i < header@.len() ==> (#[trigger] r@[i])@ == rewrite_prop_spec(
            class@,
            header@[i]@,
        ),
        props_model(r@) == rewrite_header_spec(class@, props_model(header@)),
{
    let mut new_header: Vec<Property> = Vec::new();
    let n = header.len();
    let mut idx: usize = 0;
    while idx < n
        invariant
            n == header@.len(),
            0 <= idx <= n,
            new_header@.len() == idx,
            forall|i: int| 0 <= i < idx ==> (#[trigger] new_header@[i])@ == rewrite_prop_spec(
                class@,
                header@[i]@,
            ),
        decreases n - idx,
    {
        let p = &header[idx];
        if str_eq(p.key.as_str(), "PRODID") {
            new_header.push(
                Property::new(
                    String::from_str("PRODID"),
                    String::from_str("-//github.com/fluxdiv/canvas_calendar_split//EN"),
                ),
            );
        } else if str_eq(p.key.as_str(), "X-WR-CALNAME") {
            new_header.push(Property::new(String::from_str("X-WR-CALNAME"), class.clone()));
        } else if str_eq(p.key.as_str(), "X-WR-CALDESC") {
            let d = String::from_str("Calendar events for ").concat(class.as_str());
            new_header.push(Property::new(String::from_str("X-WR-CALDESC"), d));
        } else {
            new_header.push(Property::new(p.key.clone(), p.value.clone()));
        }
        idx += 1;
    }
    proof {
        assert(props_model(new_header@) =~= rewrite_header_spec(class@, props_model(header@)));
    }
    new_header
}

} // verus!
