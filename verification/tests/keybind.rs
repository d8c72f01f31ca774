use fpwm::display::{is_access_denied, root_event_mask, EventKind, Modifier};
use fpwm::keybind::Keybind;

#[test]
fn keybind_new_keeps_its_parts() {
    let k = Keybind::new("d", 0x08, "exec rofi");
    assert_eq!(k.key, "d");
    assert_eq!(k.modifiers, 0x08);
    assert_eq!(k.command, "exec rofi");
}

#[test]
fn keybinds_are_equal_by_key_and_modifiers() {
    assert_eq!(Keybind::new("d", 8, "exec a"), Keybind::new("d", 8, "exec b"));
    assert_ne!(Keybind::new("d", 8, "exec a"), Keybind::new("d", 9, "exec a"));
    assert_ne!(Keybind::new("d", 8, "exec a"), Keybind::new("e", 8, "exec a"));
}

#[test]
fn keybind_matches_when_its_modifiers_are_held() {
    let k = Keybind::new("d", 0x09, "exit");
    assert!(k.matches("d", 0x09));
    assert!(k.matches("d", 0x0d));
    assert!(!k.matches("d", 0x08));
    assert!(!k.matches("d", 0x01));
    assert!(!k.matches("D", 0x09));
    assert!(Keybind::new("d", 0, "exit").matches("d", 0xff));
}

#[test]
fn modifier_masks_are_those_of_the_protocol() {
    assert_eq!(Modifier::Shift.mask(), 0x01);
    assert_eq!(Modifier::Control.mask(), 0x04);
    assert_eq!(Modifier::Mod1.mask(), 0x08);
    assert_eq!(Modifier::Mod2.mask(), 0x10);
    assert_eq!(Modifier::Mod3.mask(), 0x20);
    assert_eq!(Modifier::Mod4.mask(), 0x40);
    assert_eq!(Modifier::Mod5.mask(), 0x80);
}

#[test]
fn event_kinds_are_told_apart_by_code() {
    assert_eq!(EventKind::classify(2), EventKind::KeyPress);
    assert_eq!(EventKind::classify(16), EventKind::CreateNotify);
    assert_eq!(EventKind::classify(17), EventKind::DestroyNotify);
    assert_eq!(EventKind::classify(20), EventKind::MapRequest);
    assert_eq!(EventKind::classify(23), EventKind::ConfigureRequest);
    assert_eq!(EventKind::classify(3), EventKind::Other);
    assert_eq!(EventKind::classify(0), EventKind::Other);
    assert_eq!(EventKind::classify(-1), EventKind::Other);
}

#[test]
fn access_denied_is_code_ten() {
    assert!(is_access_denied(10));
    assert!(!is_access_denied(0));
    assert!(!is_access_denied(9));
    assert!(!is_access_denied(11));
}

#[test]
fn root_event_mask_selects_substructure_events() {
    assert_eq!(root_event_mask(), 0x0018_0000);
}
