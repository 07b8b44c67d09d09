use connect4::exdraw::{add, AppState};

#[test]
fn it_works() {
    let result = add(2, 2);
    assert_eq!(result, 4);
}

#[test]
fn app_state_defaults_match_the_editor_settings() {
    let state = AppState::default();
    assert_eq!(state.grid_size, 20);
    assert_eq!(state.view_background_color, "#ffffff");
}
