use saba_core::ui::{AddressBar, ClickTarget, InputMode, KeyAction};

#[test]
fn ui_keys_ignored_until_toolbar_click() {
    let mut bar = AddressBar::new();
    assert_eq!(bar.handle_key('a'), KeyAction::Nothing);
    assert_eq!(bar.input_url(), "");
    assert_eq!(bar.handle_click(30 + 10, 50 + 30), ClickTarget::Toolbar);
    assert_eq!(bar.mode(), InputMode::Editing);
}

#[test]
fn ui_typing_editing_and_enter() {
    let mut bar = AddressBar::new();
    bar.handle_click(40, 80);
    for c in "http://ab".chars() {
        assert_eq!(bar.handle_key(c), KeyAction::RedrawAddressBar);
    }
    assert_eq!(bar.handle_key('\x08'), KeyAction::RedrawAddressBar);
    assert_eq!(bar.handle_key('\x7f'), KeyAction::RedrawAddressBar);
    assert_eq!(bar.input_url(), "http://");
    bar.handle_key('x');
    assert_eq!(bar.handle_key('\n'), KeyAction::Navigate("http://x".to_string()));
    assert_eq!(bar.input_url(), "");
    assert_eq!(bar.mode(), InputMode::Normal);
}

#[test]
fn ui_click_targets() {
    let mut bar = AddressBar::new();
    assert_eq!(bar.handle_click(0, 0), ClickTarget::Outside);
    assert_eq!(bar.handle_click(30 + 601, 60), ClickTarget::Outside);
    assert_eq!(bar.handle_click(30 + 5, 50 + 100), ClickTarget::Content { x: 5, y: 50 });
    assert_eq!(bar.mode(), InputMode::Normal);
}
