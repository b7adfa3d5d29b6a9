use loggle::app::list_state::SearchableListState;
use loggle::app::visible::VisibleLogView;
use loggle::buffer::LogBuffer;
use loggle::filter::LogFilter;

#[test]
fn selection_moves_and_clamps_to_available_rows() {
    let mut state = SearchableListState::default();

    state.move_down(2, 5);
    assert_eq!(state.selected(), 2);

    state.move_down(usize::MAX, 5);
    assert_eq!(state.selected(), 4);

    state.move_up(usize::MAX);
    assert_eq!(state.selected(), 0);

    state.move_down(3, 0);
    assert_eq!(state.selected(), 0);
}

#[test]
fn query_mutation_preserves_selection_until_synced() {
    let mut state = SearchableListState::default();
    state.move_down(2, 5);

    state.push_query_char('r');
    state.push_query_char('e');
    assert_eq!(state.query(), "re");
    assert_eq!(state.selected(), 2);

    state.pop_query_char();
    assert_eq!(state.query(), "r");

    state.sync(1);
    assert_eq!(state.selected(), 0);
}

#[test]
fn live_filter_cache_matches_scan_during_sustained_eviction_and_updates() {
    let mut buffer = LogBuffer::new(127);
    let mut view = VisibleLogView::new();
    let mut filter = LogFilter::default();
    filter.text = Some("tenant".into());
    for index in 0..10_000 {
        let line = match index % 6 {
            0 => "api | [14:06:58.892] INFO (#1):".into(),
            1 => "api | {".into(),
            2 => "api | tenant: \"a\"".into(),
            3 => "api | }".into(),
            4 => "api | 14:06:58.892 INFO request".into(),
            _ => format!("web | INFO tenant {index}"),
        };
        let change = buffer.push_line(line);
        view.on_line_received(&change, &buffer, &filter);
        let expected: Vec<_> = buffer
            .events()
            .iter()
            .filter(|event| filter.matches(event))
            .map(|event| event.sequence)
            .collect();
        assert_eq!(view.cache.iter().copied().collect::<Vec<_>>(), expected);
        for (index, sequence) in expected.iter().enumerate() {
            assert_eq!(
                view.event_at(&buffer, &filter, index).unwrap().sequence,
                *sequence
            );
        }
    }
}
