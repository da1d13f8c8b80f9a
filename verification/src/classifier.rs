//! Extraction of a class identifier from a component's summary text, and the
//! routing rule that picks each component's grouping key.

use vstd::prelude::*;
use crate::default_class;
use crate::default_class_spec;
use crate::types::Component;
use crate::types::ComponentKind;

verus! {

/// Position of the first occurrence of `c` in `s`, if any.
pub open spec fn first_index(s: Seq<char>, c: char) -> Option<int>
    decreases s.len(),
{
    if s.len() == 0 {
        None
    } else if s[0] == c {
        Some(0)
    } else {
        match first_index(s.drop_first(), c) {
            None => None,
            Some(i) => Some(i + 1),
        }
    }
}

/// `first_index` really is the first occurrence: it lands on `c`, nothing
/// before it is `c`, and it is `None` exactly when `c` does not occur.
pub proof fn lemma_first_index_props(s: Seq<char>, c: char)
    ensures
        match first_index(s, c) {
            Some(i) => 0 <= i < s.len() && s[i] == c && (forall|k: int| 0 <= k < i ==> s[k] != c),
            None => forall|k: int| 0 <= k < s.len() ==> s[k] != c,
        },
    decreases s.len(),
{
    if s.len() == 0 {
    } else if s[0] == c {
    } else {
        let sub = s.drop_first();
        lemma_first_index_props(sub, c);
        match first_index(sub, c) {
            None => {
                assert forall|k: int| 0 <= k < s.len() implies s[k] != c by {
                    if k > 0 {
                        assert(sub[k - 1] == s[k]);
                    }
                }
            },
            Some(i) => {
                assert(sub[i] == s[i + 1]);
                assert forall|k: int| 0 <= k < i + 1 implies s[k] != c by {
                    if k > 0 {
                        assert(sub[k - 1] == s[k]);
                    }
                }
            },
        }
    }
}

/// A position that holds `c` with no `c` before it is the first occurrence.
pub proof fn lemma_first_index_at(s: Seq<char>, c: char, i: int)
    requires
        0 <= i < s.len(),
        s[i] == c,
        forall|k: int| 0 <= k < i ==> s[k] != c,
    ensures
        first_index(s, c) == Some(i),
    decreases i,
{
    if i == 0 {
    } else {
        assert(s.drop_first()[i - 1] == s[i]);
        assert(forall|k: int| 0 <= k < i - 1 ==> s.drop_first()[k] == s[k + 1]);
        lemma_first_index_at(s.drop_first(), c, i - 1);
    }
}

/// What extraction yields on summary text `s`: the text strictly between the
/// first `[` and the first `]`, provided both occur and the `]` comes strictly
/// after the `[`; absent otherwise.
pub open spec fn extract_spec(s: Seq<char>) -> Option<Seq<char>> {
    match first_index(s, '[') {
        None => None,
        Some(i) => match first_index(s, ']') {
            None => None,
            Some(j) => if j > i {
                Some(s.subrange(i + 1, j))
            } else {
                None
            },
        },
    }
}

/// Any text with a well-formed bracket pair yields exactly the text between
/// the first `[` and the first `]`, whatever surrounds it.
pub proof fn lemma_extract_bracket_pair(s: Seq<char>, i: int, j: int)
    requires
        0 <= i < j < s.len(),
        s[i] == '[',
        s[j] == ']',
        forall|k: int| 0 <= k < i ==> s[k] != '[',
        forall|k: int| 0 <= k < j ==> s[k] != ']',
    ensures
        extract_spec(s) == Some(s.subrange(i + 1, j)),
{
    lemma_first_index_at(s, '[', i);
    lemma_first_index_at(s, ']', j);
}

/// Text with no `[`, no `]`, or whose first `]` comes at or before its first
/// `[` yields nothing.
pub proof fn lemma_extract_absent(s: Seq<char>)
    requires
        first_index(s, '[') is None || first_index(s, ']') is None || first_index(
            s,
            ']',
        )->0 <= first_index(s, '[')->0,
    ensures
        extract_spec(s) is None,
{
}

/// Extracts the class identifier from a summary: the text strictly between
/// the first `[` and the first `]`, verbatim, with no trimming and no
/// validation; absent when the summary is absent, when either bracket is
/// missing, or when the first `]` does not come strictly after the first `[`.
pub fn extract_class_code(summary: Option<&str>) -> (r: Option<String>)
    ensures
        match summary {
            None => r is None,
            Some(s) => match extract_spec(s@) {
                None => r is None,
                Some(code) => r matches Some(x) && x@ == code,
            },
        },
{
    let s = match summary {
        None => { return None },
        Some(s) => s,
    };
    let start = match find_char(s, '[') {
        None => { return None },
        Some(i) => i,
    };
    let end = match find_char(s, ']') {
        None => { return None },
        Some(j) => j,
    };
    proof {
        lemma_first_index_props(s@, '[');
        lemma_first_index_props(s@, ']');
    }
    if end > start {
        let code = s.substring_char(start + 1, end);
        Some(String::from_str(code))
    } else {
        None
    }
}

/// Position of the first occurrence of `c` in `s`, if any.
fn find_char(s: &str, c: char) -> (r: Option<usize>)
    ensures
        match r {
            None => first_index(s@, c) is None,
            Some(i) => first_index(s@, c) == Some(i as int),
        },
{
    let n = s.unicode_len();
    let mut i: usize = 0;
    while i < n
        invariant
            n == s@.len(),
            0 <= i <= n,
            forall|k: int| 0 <= k < i ==> s@[k] != c,
        decreases n - i,
    {
        if s.get_char(i) == c {
            proof {
                lemma_first_index_at(s@, c, i as int);
            }
            return Some(i);
        }
        i += 1;
    }
    proof {
        lemma_first_index_props(s@, c);
    }
    None
}

/// The grouping key a component is routed to: the extracted class identifier
/// for an event whose summary yields one, the reserved default key for every
/// other component.
pub open spec fn route_spec(c: Component) -> Seq<char> {
    match c.kind {
        ComponentKind::Event => match c.summary {
            Some(s) => match extract_spec(s@) {
                Some(code) => code,
                None => default_class_spec(),
            },
            None => default_class_spec(),
        },
        _ => default_class_spec(),
    }
}

/// A component that is not an event, an event without a summary, and an event
/// whose summary yields no identifier are all routed to the default bucket.
pub proof fn lemma_default_routing(c: Component)
    requires
        !(c.kind is Event) || c.summary is None || (c.summary matches Some(s) && extract_spec(s@)
            is None),
    ensures
        route_spec(c) == default_class_spec(),
{
}

/// Computes the grouping key for one component.
pub fn class_code_for(c: &Component) -> (r: String)
    ensures
        r@ == route_spec(*c),
{
    match &c.kind {
        ComponentKind::Event => {
            let summary = match &c.summary {
                Some(s) => Some(s.as_str()),
                None => None,
            };
            match extract_class_code(summary) {
                Some(code) => code,
                None => default_class(),
            }
        },
        _ => default_class(),
    }
}

} // verus!
