use html_highlight::stream::{is_partition, is_well_nested};
use html_highlight::HighlightEvent;

fn begin(category: usize) -> HighlightEvent {
    HighlightEvent::BeginCategory(category)
}

fn source(start: usize, end: usize) -> HighlightEvent {
    HighlightEvent::SourceBytes { start, end }
}

fn inject(start: usize, end: usize) -> HighlightEvent {
    HighlightEvent::BeginInjection { language: String::from("html"), start, end }
}

#[test]
fn matched_begins_and_ends_are_well_nested() {
    assert!(is_well_nested(&[]));
    assert!(is_well_nested(&[source(0, 4)]));
    assert!(is_well_nested(&[begin(1), source(0, 1), HighlightEvent::EndCategory]));
    assert!(is_well_nested(&[
        begin(1),
        begin(2),
        HighlightEvent::EndCategory,
        inject(0, 1),
        HighlightEvent::EndInjection,
        HighlightEvent::EndCategory,
        inject(1, 2),
        HighlightEvent::EndInjection,
    ]));
}

#[test]
fn an_end_with_nothing_open_is_not_well_nested() {
    assert!(!is_well_nested(&[HighlightEvent::EndCategory]));
    assert!(!is_well_nested(&[HighlightEvent::EndInjection]));
    assert!(!is_well_nested(&[begin(1), HighlightEvent::EndCategory, HighlightEvent::EndCategory, begin(2)]));
}

#[test]
fn a_begin_left_open_is_not_well_nested() {
    assert!(!is_well_nested(&[begin(1)]));
    assert!(!is_well_nested(&[inject(0, 1)]));
    assert!(!is_well_nested(&[begin(1), begin(2), HighlightEvent::EndCategory]));
}

#[test]
fn an_end_of_the_other_kind_is_not_well_nested() {
    assert!(!is_well_nested(&[begin(1), HighlightEvent::EndInjection]));
    assert!(!is_well_nested(&[inject(0, 1), HighlightEvent::EndCategory]));
    assert!(!is_well_nested(&[begin(1), inject(0, 1), HighlightEvent::EndCategory, HighlightEvent::EndInjection]));
}

#[test]
fn ranges_that_follow_each_other_to_the_end_are_a_partition() {
    assert!(is_partition(&[], 0));
    assert!(is_partition(&[source(0, 5)], 5));
    assert!(is_partition(&[begin(1), source(0, 2), HighlightEvent::EndCategory, source(2, 2), source(2, 5)], 5));
    assert!(is_partition(&[HighlightEvent::EndCategory, source(0, 0), HighlightEvent::EndInjection], 0));
}

#[test]
fn a_gap_an_overlap_or_a_short_end_is_no_partition() {
    assert!(!is_partition(&[], 1));
    assert!(!is_partition(&[source(0, 2), source(3, 5)], 5));
    assert!(!is_partition(&[source(0, 3), source(2, 5)], 5));
    assert!(!is_partition(&[source(0, 4)], 5));
    assert!(!is_partition(&[source(1, 5)], 5));
    assert!(!is_partition(&[source(0, 6)], 5));
    assert!(!is_partition(&[source(0, 5), source(5, 4)], 5));
    assert!(!is_partition(&[source(2, 5), source(0, 2)], 5));
}

#[test]
fn a_stream_with_an_injection_is_no_partition() {
    assert!(!is_partition(&[source(0, 2), inject(2, 5), HighlightEvent::EndInjection], 5));
    assert!(!is_partition(&[source(0, 5), inject(5, 5)], 5));
}
