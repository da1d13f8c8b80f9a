use calendar_split::Component;
use calendar_split::ComponentKind;
use calendar_split::class_code_for;
use calendar_split::default_class;
use calendar_split::extract_class_code;
use icalendar::CalendarComponent;

fn event(summary: Option<&str>) -> Component {
    Component {
        kind: ComponentKind::Event,
        summary: summary.map(|s| s.to_string()),
        content: CalendarComponent::Event(icalendar::Event::new()),
    }
}

fn todo_item() -> Component {
    Component {
        kind: ComponentKind::Todo,
        summary: None,
        content: CalendarComponent::Todo(icalendar::Todo::new()),
    }
}

#[test]
fn extract_canvas_style_summary() {
    let r = extract_class_code(Some("Final Exam [2025FallC-X-CSE360-77646]"));
    assert_eq!(r, Some("2025FallC-X-CSE360-77646".to_string()));
}

#[test]
fn extract_without_brackets_is_absent() {
    assert_eq!(extract_class_code(Some("Office Hours")), None);
}

#[test]
fn extract_without_summary_is_absent() {
    assert_eq!(extract_class_code(None), None);
}

#[test]
fn extract_missing_one_bracket_is_absent() {
    assert_eq!(extract_class_code(Some("[only an opening")), None);
    assert_eq!(extract_class_code(Some("only a closing]")), None);
}

#[test]
fn extract_closing_before_opening_is_absent() {
    assert_eq!(extract_class_code(Some("]a[")), None);
    assert_eq!(extract_class_code(Some("a][b]")), None);
}

#[test]
fn extract_empty_pair_is_empty_code() {
    assert_eq!(extract_class_code(Some("[]")), Some("".to_string()));
}

#[test]
fn extract_keeps_internal_whitespace() {
    assert_eq!(extract_class_code(Some("before [ a b ] after")), Some(" a b ".to_string()));
}

#[test]
fn extract_uses_first_pair_only() {
    assert_eq!(extract_class_code(Some("x[A]y[B]")), Some("A".to_string()));
}

#[test]
fn route_event_with_code() {
    let c = event(Some("Lecture [MATH101]"));
    assert_eq!(class_code_for(&c), "MATH101".to_string());
}

#[test]
fn route_event_without_code_is_default() {
    let c = event(Some("Office Hours"));
    assert_eq!(class_code_for(&c), "no_associated_class".to_string());
}

#[test]
fn route_event_without_summary_is_default() {
    let c = event(None);
    assert_eq!(class_code_for(&c), "no_associated_class".to_string());
}

#[test]
fn route_non_event_is_default() {
    let c = todo_item();
    assert_eq!(class_code_for(&c), default_class());
}
