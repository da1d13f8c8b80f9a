//! The data the splitter works on: header properties and calendar components.

use vstd::prelude::*;

verus! {

/// One header metadata line of a calendar: a key and a value, immutable once
/// constructed.
pub struct Property {
    pub key: String,
    pub value: String,
}

impl View for Property {
    type V = (Seq<char>, Seq<char>);

    open spec fn view(&self) -> (Seq<char>, Seq<char>) {
        (self.key@, self.value@)
    }
}

impl Property {
    pub fn new(key: String, value: String) -> (r: Property)
        ensures
            r@ == (key@, value@),
    {
        Property { key, value }
    }
}

/// A whole header as key/value pairs, in order.
pub open spec fn props_model(ps: Seq<Property>) -> Seq<(Seq<char>, Seq<char>)> {
    ps.map_values(|p: Property| p@)
}

/// The type tag of a calendar component.
pub enum ComponentKind {
    Event,
    Todo,
    Venue,
    Other,
}

/// Relies on `icalendar::CalendarComponent` only as an opaque value: a parsed
/// scheduling item that the splitter carries through unchanged and never reads.
#[verifier::external_type_specification]
#[verifier::external_body]
pub struct ExCalendarComponent(icalendar::CalendarComponent);

/// A scheduling component as the splitter sees it: its type tag, the summary
/// text (present only for events that have one), and the full parsed item,
/// which is carried into the chosen group untouched.
pub struct Component {
    pub kind: ComponentKind,
    pub summary: Option<String>,
    pub content: icalendar::CalendarComponent,
}

} // verus!
