use taskbar::settings::{
    call_outcome, control_message, item_rows, items_note, load_reply, option_at, update, with_config, Call, Msg, Snapshot,
    State, Control,
};
use taskbar::view::{ConfigView, IconView, ItemView, StatusView};

fn config() -> ConfigView {
    ConfigView {
        icon_size: 16,
        sort: "registered".to_owned(),
        order: Vec::new(),
        hidden: Vec::new(),
        show_when_empty: false,
        panel_box: "right".to_owned(),
        panel_position: 0,
    }
}

fn item(key: &str) -> ItemView {
    ItemView {
        key: key.to_owned(),
        app_id: key.to_owned(),
        title: key.to_owned(),
        tooltip: String::new(),
        status: String::new(),
        accessible_name: String::new(),
        has_menu: false,
        item_is_menu: false,
        icon: IconView::default(),
    }
}

fn loaded() -> State {
    let (state, calls) = update(
        &State::default(),
        Msg::Loaded(Box::new(Snapshot {
            status: StatusView::default(),
            config: config(),
            items: vec![item("steam"), item("discord")],
        })),
    );
    assert!(calls.is_empty(), "loading needs no further calls");
    assert!(state.loaded);
    state
}

#[test]
fn loading_replaces_the_whole_picture() {
    let state = loaded();
    assert_eq!(state.items.len(), 2);
    assert_eq!(state.position("discord"), Some(1));
}

#[test]
fn changing_a_setting_is_reflected_at_once_and_persisted() {
    let state = loaded();
    let (next, calls) = update(&state, Msg::SetIconSize(24));

    assert_eq!(next.config.icon_size, 24, "the control moves at once");
    assert_eq!(
        calls,
        vec![Call::SetConfig(next.config.clone())],
        "the daemon keeps the config file"
    );
}

#[test]
fn icon_size_is_bounded() {
    let state = loaded();
    assert_eq!(update(&state, Msg::SetIconSize(9999)).0.config.icon_size, 128);
    assert_eq!(update(&state, Msg::SetIconSize(1)).0.config.icon_size, 8);
}

#[test]
fn hiding_an_item_adds_it_to_the_hidden_list() {
    let state = loaded();
    let (next, calls) = update(&state, Msg::SetItemHidden("steam".to_owned(), true));
    assert!(next.is_hidden("steam"));
    assert_eq!(calls, vec![Call::SetConfig(next.config.clone())]);
    assert!(!next.is_hidden("discord"));

    let (next, _) = update(&next, Msg::SetItemHidden("steam".to_owned(), false));
    assert!(!next.is_hidden("steam"), "unhiding removes the key again");
}

#[test]
fn moving_an_item_is_forwarded_to_the_daemon() {
    let state = loaded();
    let (next, calls) = update(&state, Msg::MoveItem("steam".to_owned(), 1));
    assert_eq!(next, state, "the daemon decides the order");
    assert_eq!(calls, vec![Call::MoveItem("steam".to_owned(), 1)]);
}

#[test]
fn refresh_asks_for_a_new_picture() {
    let (next, calls) = update(&loaded(), Msg::Refresh);
    assert_eq!(calls, vec![Call::Load]);
    assert!(next.loaded);
}

#[test]
fn failures_are_kept_until_the_next_success() {
    let (state, _) = update(&loaded(), Msg::Failed("boom".to_owned()));
    assert_eq!(state.error.as_deref(), Some("boom"));

    let (state, _) = update(
        &state,
        Msg::Loaded(Box::new(Snapshot {
            status: StatusView::default(),
            config: config(),
            items: Vec::new(),
        })),
    );
    assert_eq!(state.error, None);
}

#[test]
fn every_setting_reaches_the_daemon() {
    let state = loaded();
    let (next, _) = update(&state, Msg::SetSort("title".to_owned()));
    assert_eq!(next.config.sort, "title");
    let (next, _) = update(&next, Msg::SetPanelBox("left".to_owned()));
    assert_eq!(next.config.panel_box, "left");
    let (next, _) = update(&next, Msg::SetPanelPosition(500));
    assert_eq!(next.config.panel_position, 64);
    let (next, calls) = update(&next, Msg::SetShowWhenEmpty(true));
    assert!(next.config.show_when_empty);
    assert_eq!(calls, vec![Call::SetConfig(next.config.clone())]);
}

#[test]
fn hiding_twice_lists_the_key_once() {
    let state = loaded();
    let (next, _) = update(&state, Msg::SetItemHidden("steam".to_owned(), true));
    let (next, _) = update(&next, Msg::SetItemHidden("steam".to_owned(), true));
    assert_eq!(next.config.hidden, vec!["steam"]);
}

#[test]
fn a_new_config_clears_the_error() {
    let (state, _) = update(&loaded(), Msg::Failed("boom".to_owned()));
    let (next, calls) = with_config(&state, config());
    assert_eq!(next.error, None);
    assert_eq!(calls, vec![Call::SetConfig(config())]);
    assert_eq!(state.position("nobody"), None);
}

#[test]
fn a_failed_call_is_reported_and_a_good_one_reloads() {
    assert_eq!(call_outcome(Ok(())), None);
    assert_eq!(
        call_outcome(Err("no such tray item: x".to_owned())),
        Some(Msg::Failed("no such tray item: x".to_owned()))
    );
}

#[test]
fn a_reload_reports_the_first_error() {
    let all = load_reply(Ok(StatusView::default()), Ok(config()), Ok(vec![item("steam")]));
    assert_eq!(
        all,
        Msg::Loaded(Box::new(Snapshot {
            status: StatusView::default(),
            config: config(),
            items: vec![item("steam")],
        }))
    );
    let first = load_reply(Err("status".to_owned()), Err("config".to_owned()), Err("items".to_owned()));
    assert_eq!(first, Msg::Failed("status".to_owned()));
    let second = load_reply(Ok(StatusView::default()), Err("config".to_owned()), Err("items".to_owned()));
    assert_eq!(second, Msg::Failed("config".to_owned()));
    let third = load_reply(Ok(StatusView::default()), Ok(config()), Err("items".to_owned()));
    assert_eq!(third, Msg::Failed("items".to_owned()));
}

#[test]
fn rows_stay_while_the_keys_stay() {
    let mut state = loaded();
    state.config.hidden = vec!["discord".to_owned()];
    let shown = vec!["steam".to_owned(), "discord".to_owned()];
    let (keep, rows) = item_rows(&shown, &state);
    assert!(keep);
    assert_eq!(rows, vec![(true, false, true), (false, true, false)]);

    let reordered = vec!["discord".to_owned(), "steam".to_owned()];
    let (keep, rows) = item_rows(&reordered, &state);
    assert!(!keep);
    assert_eq!(rows, vec![(true, false, true), (false, true, false)]);
    assert!(!item_rows(&Vec::new(), &state).0);
}

#[test]
fn the_row_note_explains_an_empty_list() {
    assert!(items_note(&State::default()).starts_with("No tray items are registered."));
    assert!(items_note(&loaded()).starts_with("Turn an item off"));
}

#[test]
fn choice_rows_fall_back_past_the_end() {
    let modes = ["registered", "manual", "title"];
    assert_eq!(option_at(modes, 2, 0), "title");
    assert_eq!(option_at(modes, 7, 0), "registered");
    assert_eq!(option_at(["left", "center", "right"], u32::MAX, 2), "right");
}

#[test]
fn controls_send_their_messages() {
    assert_eq!(control_message(Control::MoveUp("steam".to_owned()), true), Some(Msg::MoveItem("steam".to_owned(), -1)));
    assert_eq!(control_message(Control::MoveDown("steam".to_owned()), false), Some(Msg::MoveItem("steam".to_owned(), 1)));
    assert_eq!(
        control_message(Control::Visible("steam".to_owned(), false), false),
        Some(Msg::SetItemHidden("steam".to_owned(), true))
    );
    assert_eq!(control_message(Control::Visible("steam".to_owned(), true), true), None);
    assert_eq!(control_message(Control::Sort(2), false), Some(Msg::SetSort("title".to_owned())));
    assert_eq!(control_message(Control::Sort(9), false), Some(Msg::SetSort("registered".to_owned())));
    assert_eq!(control_message(Control::PanelBox(0), false), Some(Msg::SetPanelBox("left".to_owned())));
    assert_eq!(control_message(Control::PanelBox(5), false), Some(Msg::SetPanelBox("right".to_owned())));
    assert_eq!(control_message(Control::IconSize(24), false), Some(Msg::SetIconSize(24)));
    assert_eq!(control_message(Control::IconSize(24), true), None);
    assert_eq!(control_message(Control::PanelPosition(3), false), Some(Msg::SetPanelPosition(3)));
    assert_eq!(control_message(Control::ShowWhenEmpty(true), false), Some(Msg::SetShowWhenEmpty(true)));
}
