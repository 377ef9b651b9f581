use log_highlight::Home;

#[test]
fn new_home_has_default_actions_and_empty_log() {
    let home = Home::new();
    assert_eq!(
        home.available_actions.items(),
        &vec![
            "Action 1".to_string(),
            "Action 2".to_string(),
            "Action 3".to_string(),
        ]
    );
    assert_eq!(home.available_actions.selected(), None);
    assert_eq!(home.highlighter.len(), 0);
    assert!(home.highlighter.styled_view().is_empty());
}

#[test]
fn action_selection_is_independent_of_log_selection() {
    let mut home = Home::new();
    home.highlighter.ingest("Ban 1.2.3.4".to_string());
    home.available_actions.select_next();
    home.available_actions.select_next();
    assert_eq!(home.available_actions.selected(), Some(1));
    assert_eq!(home.highlighter.selected(), None);
    home.highlighter.select_next();
    assert_eq!(home.highlighter.selected(), Some(0));
    assert_eq!(home.available_actions.selected(), Some(1));
}

#[test]
fn set_default_actions_resets_the_action_list() {
    let home = Home::new();
    let home = home.set_default_actions();
    assert_eq!(home.available_actions.items().len(), 3);
    assert_eq!(home.available_actions.selected(), None);
}
