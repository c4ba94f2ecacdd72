use logq::filter_state::FilterState;
use logq::keys::TextInput;

#[test]
fn plain_text_filter_preserves_raw_input() {
    let mut state = FilterState::new();
    state.filter_input = Some(TextInput::new("MSG".to_string()));
    assert!(state.apply_filter_submit());

    assert!(state.filter_query.is_some());
    assert_eq!(state.filter_raw_input.as_deref(), Some("MSG"));

    state.start_filter_input();
    assert_eq!(state.filter_input.as_ref().unwrap().value(), "MSG");
}

#[test]
fn explicit_operator_filter_preserves_raw_input() {
    let mut state = FilterState::new();
    state.filter_input = Some(TextInput::new("|= \"MSG\"".to_string()));
    assert!(state.apply_filter_submit());

    assert!(state.filter_query.is_some());
    assert_eq!(state.filter_raw_input.as_deref(), Some("|= \"MSG\""));

    state.start_filter_input();
    assert_eq!(state.filter_input.as_ref().unwrap().value(), "|= \"MSG\"");
}

#[test]
fn empty_filter_clears_raw_input() {
    let mut state = FilterState::new();
    state.filter_input = Some(TextInput::new("MSG".to_string()));
    assert!(state.apply_filter_submit());
    assert!(state.filter_raw_input.is_some());

    state.filter_input = Some(TextInput::new(String::new()));
    assert!(state.apply_filter_submit());
    assert!(state.filter_raw_input.is_none());
}

#[test]
fn cancel_preserves_existing_raw_input() {
    let mut state = FilterState::new();
    state.filter_input = Some(TextInput::new("MSG".to_string()));
    assert!(state.apply_filter_submit());
    assert_eq!(state.filter_raw_input.as_deref(), Some("MSG"));

    state.start_filter_input();
    state.cancel_filter_input();
    assert_eq!(state.filter_raw_input.as_deref(), Some("MSG"));

    state.start_filter_input();
    assert_eq!(state.filter_input.as_ref().unwrap().value(), "MSG");
}
