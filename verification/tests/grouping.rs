use calendar_split::ClassCalendar;
use calendar_split::Classes;
use calendar_split::Component;
use calendar_split::ComponentKind;
use calendar_split::Property;
use calendar_split::class_code_for;
use calendar_split::split_components;
use icalendar::CalendarComponent;

fn event(summary: Option<&str>) -> Component {
    Component {
        kind: ComponentKind::Event,
        summary: summary.map(|s| s.to_string()),
        content: CalendarComponent::Event(icalendar::Event::new()),
    }
}

fn todo_item() -> Component {
    Component {
        kind: ComponentKind::Todo,
        summary: None,
        content: CalendarComponent::Todo(icalendar::Todo::new()),
    }
}

fn props(pairs: &[(&str, &str)]) -> Vec<Property> {
    pairs.iter().map(|(k, v)| Property::new(k.to_string(), v.to_string())).collect()
}

fn find<'a>(out: &'a [ClassCalendar], code: &str) -> Option<&'a ClassCalendar> {
    out.iter().find(|c| c.code == code)
}

#[test]
fn two_events_one_group_in_order() {
    let comps = vec![event(Some("A [MATH101]")), event(Some("B [MATH101]"))];
    let out = split_components(props(&[]), comps).finalize();
    assert_eq!(out.len(), 1);
    let g = find(&out, "MATH101").unwrap();
    assert_eq!(g.components.len(), 2);
    assert_eq!(g.components[0].summary.as_deref(), Some("A [MATH101]"));
    assert_eq!(g.components[1].summary.as_deref(), Some("B [MATH101]"));
}

#[test]
fn partition_over_mixed_stream() {
    let comps = vec![
        event(Some("A [MATH101]")),
        todo_item(),
        event(Some("Office Hours")),
        event(Some("B [CSE360]")),
        event(Some("C [MATH101]")),
        event(None),
    ];
    let out = split_components(props(&[]), comps).finalize();
    assert_eq!(out.len(), 3);
    let math = find(&out, "MATH101").unwrap();
    assert_eq!(math.components.len(), 2);
    assert_eq!(math.components[0].summary.as_deref(), Some("A [MATH101]"));
    assert_eq!(math.components[1].summary.as_deref(), Some("C [MATH101]"));
    let cse = find(&out, "CSE360").unwrap();
    assert_eq!(cse.components.len(), 1);
    let default = find(&out, "no_associated_class").unwrap();
    assert_eq!(default.components.len(), 3);
    let total: usize = out.iter().map(|c| c.components.len()).sum();
    assert_eq!(total, 6);
}

#[test]
fn default_bucket_omitted_when_empty() {
    let comps = vec![event(Some("A [MATH101]"))];
    let out = split_components(props(&[]), comps).finalize();
    assert_eq!(out.len(), 1);
    assert!(find(&out, "no_associated_class").is_none());
}

#[test]
fn default_bucket_emitted_when_non_empty() {
    let comps = vec![event(Some("Office Hours"))];
    let out = split_components(props(&[]), comps).finalize();
    assert_eq!(out.len(), 1);
    let default = find(&out, "no_associated_class").unwrap();
    assert_eq!(default.components.len(), 1);
}

#[test]
fn empty_stream_emits_nothing() {
    let out = split_components(props(&[("PRODID", "x")]), vec![]).finalize();
    assert_eq!(out.len(), 0);
}

#[test]
fn reserved_identifier_merges_with_default() {
    let comps = vec![event(Some("self made [no_associated_class]")), todo_item()];
    let out = split_components(props(&[]), comps).finalize();
    assert_eq!(out.len(), 1);
    let default = find(&out, "no_associated_class").unwrap();
    assert_eq!(default.components.len(), 2);
}

#[test]
fn insert_component_groups_by_code() {
    let mut classes = Classes::new(props(&[]));
    let a = event(Some("A [MATH101]"));
    let b = event(Some("B [MATH101]"));
    let code_a = class_code_for(&a);
    let code_b = class_code_for(&b);
    classes.insert_component(code_a, a);
    classes.insert_component(code_b, b);
    let out = classes.finalize();
    assert_eq!(out.len(), 1);
    assert_eq!(out[0].code, "MATH101");
    assert_eq!(out[0].components.len(), 2);
}

#[test]
fn finalize_attaches_rewritten_header_per_group() {
    let header = props(&[("X-WR-CALNAME", "Original"), ("X-OTHER", "kept")]);
    let comps = vec![event(Some("A [MATH101]")), event(Some("B [CSE360]"))];
    let out = split_components(header, comps).finalize();
    assert_eq!(out.len(), 2);
    for cal in &out {
        assert_eq!(cal.header.len(), 2);
        assert_eq!(cal.header[0].key, "X-WR-CALNAME");
        assert_eq!(cal.header[0].value, cal.code);
        assert_eq!(cal.header[1].key, "X-OTHER");
        assert_eq!(cal.header[1].value, "kept");
    }
}

#[test]
fn components_carry_their_content() {
    let comps = vec![event(Some("A [MATH101]"))];
    let out = split_components(props(&[]), comps).finalize();
    let g = find(&out, "MATH101").unwrap();
    assert!(matches!(g.components[0].content, CalendarComponent::Event(_)));
}
