//! Splits one parsed calendar into per-class calendars.
//!
//! A calendar document arrives as a header (an ordered list of key/value
//! properties) and an ordered stream of components. Each event component may
//! carry a summary; the text between the first `[` and the first `]` of that
//! summary is the component's class identifier. Components with no such
//! identifier fall into a reserved default bucket. The grouper accumulates
//! components per identifier and finally emits one calendar per non-empty
//! group, each with the original header rewritten for its class.

use vstd::prelude::*;

pub mod classifier;
pub mod grouper;
pub mod header;
pub mod types;

pub use classifier::class_code_for;
pub use classifier::extract_class_code;
pub use grouper::ClassCalendar;
pub use grouper::Classes;
pub use grouper::split_components;
pub use header::get_new_header;
pub use types::Component;
pub use types::ComponentKind;
pub use types::Property;

verus! {

/// Key of the reserved bucket that collects every component without a class
/// identifier. Extraction can in principle produce this very text (from a
/// summary such as `"x [no_associated_class]"`); such a component then simply
/// joins the default bucket, which is accepted as defined behaviour.
pub open spec fn default_class_spec() -> Seq<char> {
    "no_associated_class"@
}

/// The reserved grouping key, as a string.
pub fn default_class() -> (r: String)
    ensures
        r@ == default_class_spec(),
{
    String::from_str("no_associated_class")
}

/// Character-for-character equality of two strings.
pub fn str_eq(a: &str, b: &str) -> (r: bool)
    ensures
        r == (a@ == b@),
{
    let a_len = a.unicode_len();
    let b_len = b.unicode_len();
    if a_len != b_len {
        return false;
    }
    let mut i: usize = 0;
    while i < a_len
        invariant
            a_len == a@.len(),
            b_len == b@.len(),
            a_len == b_len,
            0 <= i <= a_len,
            forall|k: int| 0 <= k < i ==> a@[k] == b@[k],
        decreases a_len - i,
    {
        if a.get_char(i) != b.get_char(i) {
            return false;
        }
        i += 1;
    }
    proof {
        assert(a@ =~= b@);
    }
    true
}

} // verus!
