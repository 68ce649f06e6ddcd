use rchip::Keypad;

#[test]
fn key_press() {
    let mut keypad = Keypad::new();

    keypad.set_key(0, true);

    assert!(keypad.is_pressed(0));
    assert!(!keypad.is_pressed(1));
}

#[test]
fn key_release_and_other_keys_untouched() {
    let mut keypad = Keypad::new();

    keypad.set_key(0xF, true);
    keypad.set_key(0x3, true);
    keypad.set_key(0xF, false);

    assert!(!keypad.is_pressed(0xF));
    assert!(keypad.is_pressed(0x3));
    for key in 0..16 {
        if key != 0x3 {
            assert!(!keypad.is_pressed(key));
        }
    }
}
