use text_diff::{Button, ButtonAction, ButtonRef, ButtonSet, KeyModifiers, WidgetAction};

fn mods(shift: bool) -> KeyModifiers {
    KeyModifiers {
        shift,
        control: false,
        alt: false,
        logo: false,
    }
}

fn button(uid: u64) -> Button {
    Button {
        widget_uid: uid,
        ..Button::default()
    }
}

#[test]
fn default_button_is_enabled_and_visible() {
    let b = Button::default();
    assert_eq!(b.widget_uid, 0);
    assert!(b.enabled);
    assert!(b.visible);
    assert!(!b.hover);
}

#[test]
fn clicked_finds_the_matching_action() {
    let b = button(7);
    let actions = vec![
        WidgetAction {
            widget_uid: 3,
            action: ButtonAction::Pressed(mods(false)),
        },
        WidgetAction {
            widget_uid: 7,
            action: ButtonAction::Clicked(mods(true)),
        },
    ];
    assert!(b.clicked(&actions));
    assert!(!b.pressed(&actions));
    assert!(!b.released(&actions));
    assert_eq!(b.clicked_modifiers(&actions), Some(mods(true)));
    assert_eq!(b.pressed_modifiers(&actions), None);
    assert_eq!(b.released_modifiers(&actions), None);
}

#[test]
fn queries_miss_when_no_action_matches() {
    let b = button(9);
    let actions = vec![WidgetAction {
        widget_uid: 3,
        action: ButtonAction::Clicked(mods(false)),
    }];
    assert!(!b.clicked(&actions));
    assert_eq!(b.clicked_modifiers(&actions), None);
    assert!(!b.clicked(&Vec::new()));
}

#[test]
fn first_matching_action_wins() {
    let b = button(4);
    let actions = vec![
        WidgetAction {
            widget_uid: 4,
            action: ButtonAction::Pressed(mods(false)),
        },
        WidgetAction {
            widget_uid: 4,
            action: ButtonAction::Clicked(mods(true)),
        },
    ];
    assert!(b.pressed(&actions));
    assert!(!b.clicked(&actions));
}

#[test]
fn released_reports_its_modifiers() {
    let b = button(2);
    let actions = vec![WidgetAction {
        widget_uid: 2,
        action: ButtonAction::Released(mods(true)),
    }];
    assert!(b.released(&actions));
    assert_eq!(b.released_modifiers(&actions), Some(mods(true)));
}

#[test]
fn empty_ref_sees_nothing() {
    let r = ButtonRef { inner: None };
    let actions = vec![WidgetAction {
        widget_uid: 0,
        action: ButtonAction::Clicked(mods(false)),
    }];
    assert!(!r.clicked(&actions));
    assert!(!r.pressed(&actions));
    assert!(!r.released(&actions));
    assert_eq!(r.clicked_modifiers(&actions), None);
}

#[test]
fn ref_delegates_to_its_button() {
    let r = ButtonRef {
        inner: Some(button(5)),
    };
    let actions = vec![WidgetAction {
        widget_uid: 5,
        action: ButtonAction::Pressed(mods(false)),
    }];
    assert!(r.pressed(&actions));
    assert_eq!(r.pressed_modifiers(&actions), Some(mods(false)));
    assert_eq!(r.released_modifiers(&actions), None);
}

#[test]
fn ref_setters_update_the_button() {
    let mut r = ButtonRef {
        inner: Some(Button {
            hover: true,
            ..button(1)
        }),
    };
    r.set_visible(false);
    r.set_enabled(false);
    r.reset_hover();
    let inner = r.inner.unwrap();
    assert!(!inner.visible);
    assert!(!inner.enabled);
    assert!(!inner.hover);

    let mut empty = ButtonRef { inner: None };
    empty.set_visible(false);
    assert_eq!(empty.inner, None);
}

#[test]
fn set_queries_any_member() {
    let set = ButtonSet {
        buttons: vec![
            ButtonRef {
                inner: Some(button(1)),
            },
            ButtonRef { inner: None },
            ButtonRef {
                inner: Some(button(2)),
            },
        ],
    };
    let actions = vec![WidgetAction {
        widget_uid: 2,
        action: ButtonAction::Clicked(mods(false)),
    }];
    assert!(set.clicked(&actions));
    assert!(!set.pressed(&actions));
    assert!(!set.released(&actions));

    let press = vec![WidgetAction {
        widget_uid: 1,
        action: ButtonAction::Pressed(mods(true)),
    }];
    assert!(set.pressed(&press));
}

#[test]
fn which_clicked_modifiers_reports_the_first_hit() {
    let set = ButtonSet {
        buttons: vec![
            ButtonRef {
                inner: Some(button(1)),
            },
            ButtonRef {
                inner: Some(button(2)),
            },
            ButtonRef {
                inner: Some(button(3)),
            },
        ],
    };
    let actions = vec![
        WidgetAction {
            widget_uid: 2,
            action: ButtonAction::Clicked(mods(true)),
        },
        WidgetAction {
            widget_uid: 3,
            action: ButtonAction::Clicked(mods(false)),
        },
    ];
    assert_eq!(set.which_clicked_modifiers(&actions), Some((1, mods(true))));
    assert_eq!(set.which_clicked_modifiers(&Vec::new()), None);
}

#[test]
fn set_setters_touch_every_member() {
    let mut set = ButtonSet {
        buttons: vec![
            ButtonRef {
                inner: Some(Button {
                    hover: true,
                    ..button(1)
                }),
            },
            ButtonRef { inner: None },
            ButtonRef {
                inner: Some(Button {
                    hover: true,
                    ..button(2)
                }),
            },
        ],
    };
    set.set_visible(false);
    set.set_enabled(false);
    set.reset_hover();
    for r in &set.buttons {
        if let Some(b) = r.inner {
            assert!(!b.visible);
            assert!(!b.enabled);
            assert!(!b.hover);
        }
    }
    assert_eq!(set.buttons[1].inner, None);
}
